//! Playback of recordings: the timelines of a prepared plan, the blocks it is made
//! in, and the silence around it.
use crate::bits::INFINITY;
use crate::json::{Json, Tree};
use crate::math;
use crate::math::{Quat, Vec3};
use crate::text::same;
use vstd::prelude::*;

verus! {

broadcast use vstd::string::group_string_axioms;

/// Why a plan cannot be played.
#[derive(Clone, Copy, PartialEq, Eq, Structural, Debug)]
pub enum PlanError {
    /// A timeline is no list.
    Timeline,
    /// A timeline is empty or too long.
    Length,
    /// The time of a pose is missing.
    Time,
    /// The position or the rotation of a pose is missing.
    Numbers,
    /// The frame of a pose is missing.
    Frame,
    /// The segment of a pose is missing.
    Segment,
    /// The times of poses do not increase, or a frame or a segment is empty.
    Order,
    /// The position or the rotation of a pose is none.
    Values,
    /// The pose at a time is not valid.
    Invalid,
    /// There is no pose before or after a time.
    Uncovered,
    /// The poses around a time cannot be joined.
    Gap,
    /// Source and listener are not in one frame and segment.
    Mismatch,
    /// The audio is missing.
    Audio,
    /// The channel is missing.
    Channel,
    /// The audio is empty or has no such channel.
    Empty,
    /// The size of a block is missing.
    Block,
    /// The law of distance is missing.
    Distance,
    /// There is no such law of distance.
    UnknownDistance,
    /// The clock is missing or none.
    Clock,
    /// The silence around a recording is too long.
    Boundary,
    /// Too much is read at once.
    Limit,
}

/// Where something is at a time. Poses can be joined only within a frame and a
/// segment.
#[derive(Debug)]
pub struct Sample {
    pub at: i64,
    pub position: Vec3,
    pub rotation: Quat,
    pub frame: String,
    pub segment: String,
    pub valid: bool,
}

/// A sample by its contents.
#[verifier::ext_equal]
pub ghost struct Pin {
    pub at: i64,
    pub position: Vec3,
    pub rotation: Quat,
    pub frame: Seq<char>,
    pub segment: Seq<char>,
    pub valid: bool,
}

impl View for Sample {
    type V = Pin;

    open spec fn view(&self) -> Pin {
        Pin {
            at: self.at,
            position: self.position,
            rotation: self.rotation,
            frame: self.frame@,
            segment: self.segment@,
            valid: self.valid,
        }
    }
}

pub open spec fn pins(samples: Seq<Sample>) -> Seq<Pin> {
    Seq::new(samples.len(), |i: int| samples[i]@)
}

/// The pose of a row that comes after a time. `unit` says whether its rotation is one.
pub open spec fn pin_of(row: Tree, previous: int, unit: bool) -> Result<Pin, PlanError> {
    let position = match row.get("position_m"@) {
        Some(t) => math::vec3_in(t),
        None => None,
    };
    let rotation = match row.get("rotation_xyzw"@) {
        Some(t) => math::quat_in(t),
        None => None,
    };
    match row.signed_at("effective_time_ns"@) {
        None => Err(PlanError::Time),
        Some(at) => if position is None || rotation is None {
            Err(PlanError::Numbers)
        } else {
            match row.text_at("frame_id"@) {
                None => Err(PlanError::Frame),
                Some(frame) => match row.text_at("segment_id"@) {
                    None => Err(PlanError::Segment),
                    Some(segment) => if at <= previous || frame.len() == 0 || segment.len() == 0 {
                        Err(PlanError::Order)
                    } else if !position->0.is_finite() || !rotation->0.is_finite() || !unit {
                        Err(PlanError::Values)
                    } else {
                        Ok(
                            Pin {
                                at,
                                position: position->0,
                                rotation: rotation->0,
                                frame,
                                segment,
                                valid: row.text_at("validity"@) == Some("valid"@),
                            },
                        )
                    },
                },
            }
        },
    }
}

/// The poses of the first `n` rows.
pub open spec fn pins_of(rows: Seq<Tree>, unit: Seq<bool>, n: nat) -> Result<Seq<Pin>, PlanError>
    decreases n,
{
    if n == 0 {
        Ok(Seq::empty())
    } else {
        match pins_of(rows, unit, (n - 1) as nat) {
            Err(e) => Err(e),
            Ok(before) => {
                let previous = if before.len() == 0 {
                    -1int
                } else {
                    before.last().at as int
                };
                match pin_of(rows[n - 1], previous, unit[n - 1]) {
                    Err(e) => Err(e),
                    Ok(pin) => Ok(before.push(pin)),
                }
            },
        }
    }
}

/// The poses of a timeline.
pub open spec fn timeline_of(rows: Tree, unit: Seq<bool>) -> Result<Seq<Pin>, PlanError> {
    match rows.items() {
        None => Err(PlanError::Timeline),
        Some(list) => if list.len() == 0 || list.len() > 1_000_000 {
            Err(PlanError::Length)
        } else {
            pins_of(list, unit, list.len())
        },
    }
}

/// The rotation of a row, where it has one.
pub fn rotation_of(row: &Json) -> (res: Option<Quat>)
    ensures
        res == (match row@.get("rotation_xyzw"@) {
            Some(t) => math::quat_in(t),
            None => None,
        }),
{
    match row.get("rotation_xyzw") {
        Some(json) => math::quat(json),
        None => None,
    }
}

fn sample(row: &Json, previous: i64, unit: bool) -> (res: Result<Sample, PlanError>)
    ensures
        res matches Err(e) ==> pin_of(row@, previous as int, unit) == Err::<Pin, _>(e),
        res matches Ok(s) ==> pin_of(row@, previous as int, unit) == Ok::<_, PlanError>(s@),
{
    let at: i64 = match row.signed_at("effective_time_ns") {
        Some(at) => at,
        None => {
            return Err(PlanError::Time);
        },
    };
    let position = match row.get("position_m") {
        Some(json) => math::vec3(json),
        None => None,
    };
    let position = match position {
        Some(p) => p,
        None => {
            return Err(PlanError::Numbers);
        },
    };
    let rotation = match rotation_of(row) {
        Some(q) => q,
        None => {
            return Err(PlanError::Numbers);
        },
    };
    let frame = match row.text_at("frame_id") {
        Some(frame) => frame.as_str().to_owned(),
        None => {
            return Err(PlanError::Frame);
        },
    };
    let segment = match row.text_at("segment_id") {
        Some(segment) => segment.as_str().to_owned(),
        None => {
            return Err(PlanError::Segment);
        },
    };
    if at <= previous || frame.as_str().unicode_len() == 0 || segment.as_str().unicode_len() == 0 {
        return Err(PlanError::Order);
    }
    if !position.finite() || !rotation.finite() || !unit {
        return Err(PlanError::Values);
    }
    let valid = match row.text_at("validity") {
        Some(word) => same(word, "valid"),
        None => false,
    };
    Ok(Sample { at, position, rotation, frame, segment, valid })
}

/// Poses in the order of their times.
#[derive(Debug)]
pub struct Timeline {
    samples: Vec<Sample>,
}

/// Poses in the order of their times, from zero on.
pub open spec fn rising(pins: Seq<Pin>) -> bool {
    &&& forall|i: int, j: int|
        0 <= i < j < pins.len() ==> (#[trigger] pins[i]).at < (#[trigger] pins[j]).at
    &&& forall|i: int| 0 <= i < pins.len() ==> (#[trigger] pins[i]).at >= 0
}

proof fn pins_rise(rows: Seq<Tree>, unit: Seq<bool>, n: nat)
    requires
        pins_of(rows, unit, n) is Ok,
    ensures
        rising(pins_of(rows, unit, n)->Ok_0),
        pins_of(rows, unit, n)->Ok_0.len() == n,
    decreases n,
{
    if n > 0 {
        pins_rise(rows, unit, (n - 1) as nat);
        let before = pins_of(rows, unit, (n - 1) as nat)->Ok_0;
        let all = pins_of(rows, unit, n)->Ok_0;
        assert forall|i: int, j: int| 0 <= i < j < all.len() implies (#[trigger] all[i]).at < (
        #[trigger] all[j]).at by {
            assert(all[i] == before[i]);
            if j < before.len() {
                assert(all[j] == before[j]);
            } else if i < before.len() - 1 {
                assert(before[i].at < before[before.len() - 1].at);
            }
        }
    }
}

proof fn bad_rows_stay(rows: Seq<Tree>, unit: Seq<bool>, n: nat, m: nat)
    requires
        n <= m,
        pins_of(rows, unit, n) is Err,
    ensures
        pins_of(rows, unit, m) == pins_of(rows, unit, n),
    decreases m,
{
    if n < m {
        bad_rows_stay(rows, unit, n, (m - 1) as nat);
    }
}

/// Where on a timeline a time is.
#[derive(Clone, Copy, PartialEq, Eq, Structural, Debug)]
pub enum Lookup {
    /// At a pose.
    Exact(usize),
    /// Between a pose and the next.
    Between(usize),
}

/// How many poses from a place on are before a time.
pub open spec fn before(pins: Seq<Pin>, time: i64, from: int) -> int
    decreases pins.len() - from,
{
    if from >= pins.len() || pins[from].at >= time {
        from
    } else {
        before(pins, time, from + 1)
    }
}

/// Two poses that what lies between them can be told from: both are valid, in one frame
/// and segment, and no more than a quarter of a second apart.
pub open spec fn joins(a: Pin, b: Pin) -> bool {
    a.valid && b.valid && a.frame == b.frame && a.segment == b.segment && b.at - a.at
        <= 250_000_000
}

/// Where on a timeline a time is, if a pose can be told for it.
pub open spec fn lookup(pins: Seq<Pin>, time: i64) -> Result<Lookup, PlanError> {
    let next = before(pins, time, 0);
    if next < pins.len() && pins[next].at == time {
        if pins[next].valid {
            Ok(Lookup::Exact(next as usize))
        } else {
            Err(PlanError::Invalid)
        }
    } else if next == 0 || next >= pins.len() {
        Err(PlanError::Uncovered)
    } else if joins(pins[next - 1], pins[next]) {
        Ok(Lookup::Between((next - 1) as usize))
    } else {
        Err(PlanError::Gap)
    }
}

proof fn before_parts(pins: Seq<Pin>, time: i64, from: int)
    requires
        0 <= from <= pins.len(),
        rising(pins),
    ensures
        from <= before(pins, time, from) <= pins.len(),
        forall|i: int| from <= i < before(pins, time, from) ==> (#[trigger] pins[i]).at < time,
        forall|i: int|
            before(pins, time, from) <= i < pins.len() ==> (#[trigger] pins[i]).at >= time,
    decreases pins.len() - from,
{
    if from < pins.len() && pins[from].at < time {
        before_parts(pins, time, from + 1);
    } else if from < pins.len() {
        assert forall|i: int| from <= i < pins.len() implies (#[trigger] pins[i]).at >= time by {
            if i > from {
                assert(pins[from].at < pins[i].at);
            }
        }
    }
}

impl Timeline {
    /// The poses.
    pub closed spec fn poses(&self) -> Seq<Pin> {
        pins(self.samples@)
    }

    pub closed spec fn wf(&self) -> bool {
        rising(pins(self.samples@)) && self.samples@.len() <= 1_000_000
    }

    /// Reads a timeline. `unit` says of each row whether its rotation is one.
    pub fn new(rows: &Json, unit: &Vec<bool>) -> (res: Result<Timeline, PlanError>)
        requires
            rows@.items() matches Some(list) ==> unit@.len() == list.len(),
        ensures
            res matches Err(e) ==> timeline_of(rows@, unit@) == Err::<Seq<Pin>, _>(e),
            res matches Ok(t) ==> t.wf() && timeline_of(rows@, unit@) == Ok::<_, PlanError>(
                t.poses(),
            ),
    {
        let list = match rows.items() {
            Some(list) => list,
            None => {
                return Err(PlanError::Timeline);
            },
        };
        let ghost trees = rows@.items()->0;
        if list.len() == 0 || list.len() > 1_000_000 {
            return Err(PlanError::Length);
        }
        let mut samples: Vec<Sample> = Vec::new();
        let mut previous: i64 = -1;
        assert(pins(samples@) =~= Seq::<Pin>::empty());
        while samples.len() < list.len()
            invariant
                samples.len() <= list.len() <= 1_000_000,
                list.len() == trees.len() == unit@.len(),
                rows@.items() == Some(trees),
                trees.len() > 0,
                forall|i: int| 0 <= i < list@.len() ==> trees[i] == #[trigger] list@[i]@,
                pins_of(trees, unit@, samples@.len()) == Ok::<_, PlanError>(pins(samples@)),
                previous == (if samples.len() == 0 {
                    -1
                } else {
                    pins(samples@).last().at as int
                }),
            decreases list.len() - samples.len(),
        {
            let ghost n = samples@.len();
            let ghost had = pins(samples@);
            assert(trees[n as int] == list@[n as int]@);
            match sample(&list[samples.len()], previous, unit[samples.len()]) {
                Ok(s) => {
                    previous = s.at;
                    samples.push(s);
                    assert(pins(samples@) =~= had.push(s@));
                },
                Err(e) => {
                    proof {
                        bad_rows_stay(trees, unit@, n + 1, trees.len());
                    }
                    return Err(e);
                },
            }
        }
        proof {
            pins_rise(trees, unit@, trees.len());
        }
        Ok(Timeline { samples })
    }

    /// The pose at a place.
    pub fn sample(&self, i: usize) -> (res: &Sample)
        requires
            i < self.poses().len(),
        ensures
            res@ == self.poses()[i as int],
    {
        &self.samples[i]
    }

    /// Where on the timeline a time is. No pose is told for a time at or beside an
    /// invalid one, across frames, segments or a long gap, or outside the timeline.
    pub fn at(&self, time: i64) -> (res: Result<Lookup, PlanError>)
        requires
            self.wf(),
        ensures
            res == lookup(self.poses(), time),
            res matches Ok(Lookup::Exact(i)) ==> i < self.poses().len(),
            res matches Ok(Lookup::Between(i)) ==> i + 1 < self.poses().len(),
    {
        let ghost all = self.poses();
        let mut low: usize = 0;
        let mut high: usize = self.samples.len();
        proof {
            before_parts(all, time, 0);
        }
        while low < high
            invariant
                self.wf(),
                all == self.poses(),
                low <= high <= self.samples.len(),
                low <= before(all, time, 0) <= high,
                forall|i: int| 0 <= i < before(all, time, 0) ==> (#[trigger] all[i]).at < time,
                forall|i: int|
                    before(all, time, 0) <= i < all.len() ==> (#[trigger] all[i]).at >= time,
            decreases high - low,
        {
            let mid: usize = low + (high - low) / 2;
            assert(all[mid as int].at == self.samples@[mid as int].at);
            if self.samples[mid].at < time {
                low = mid + 1;
            } else {
                high = mid;
            }
        }
        let next: usize = low;
        if next < self.samples.len() && self.samples[next].at == time {
            assert(all[next as int] == self.samples@[next as int]@);
            return if self.samples[next].valid {
                Ok(Lookup::Exact(next))
            } else {
                Err(PlanError::Invalid)
            };
        }
        proof {
            if next < all.len() {
                assert(all[next as int] == self.samples@[next as int]@);
            }
        }
        if next == 0 || next >= self.samples.len() {
            return Err(PlanError::Uncovered);
        }
        let a = &self.samples[next - 1];
        let b = &self.samples[next];
        assert(all[next - 1] == a@ && all[next as int] == b@);
        if a.valid && b.valid && same(&a.frame, &b.frame) && same(&a.segment, &b.segment) && b.at
            - a.at <= 250_000_000 {
            Ok(Lookup::Between(next - 1))
        } else {
            Err(PlanError::Gap)
        }
    }
}

/// A pose is told between two others only where both are valid, they follow each other,
/// the time lies between them, and they can be joined.
pub proof fn no_pose_is_made_up(pins: Seq<Pin>, time: i64)
    requires
        rising(pins),
        pins.len() <= usize::MAX,
        lookup(pins, time) is Ok,
    ensures
        lookup(pins, time) matches Ok(Lookup::Exact(i)) ==> pins[i as int].at == time
            && pins[i as int].valid,
        lookup(pins, time) matches Ok(Lookup::Between(i)) ==> pins[i as int].at < time
            < pins[i + 1].at && joins(pins[i as int], pins[i + 1]),
{
    before_parts(pins, time, 0);
    let next = before(pins, time, 0);
    if next > 0 {
        assert(pins[next - 1].at < time);
    }
    if next < pins.len() {
        assert(pins[next].at >= time);
    }
}

/// The pose that the frame and the segment are taken from.
pub open spec fn anchor(pins: Seq<Pin>, found: Lookup) -> Pin {
    match found {
        Lookup::Exact(i) => pins[i as int],
        Lookup::Between(i) => pins[i as int],
    }
}

/// Where source and listener are at a time, if both can be told and belong together.
pub open spec fn both_at(source: Seq<Pin>, listener: Seq<Pin>, time: i64) -> Result<
    (Lookup, Lookup),
    PlanError,
> {
    match lookup(source, time) {
        Err(e) => Err(e),
        Ok(s) => match lookup(listener, time) {
            Err(e) => Err(e),
            Ok(l) => if anchor(source, s).frame == anchor(listener, l).frame && anchor(
                source,
                s,
            ).segment == anchor(listener, l).segment {
                Ok((s, l))
            } else {
                Err(PlanError::Mismatch)
            },
        },
    }
}

/// Where source and listener are at a time.
pub fn paired(source: &Timeline, listener: &Timeline, time: i64) -> (res: Result<
    (Lookup, Lookup),
    PlanError,
>)
    requires
        source.wf(),
        listener.wf(),
    ensures
        res == both_at(source.poses(), listener.poses(), time),
{
    let s = match source.at(time) {
        Ok(s) => s,
        Err(e) => {
            return Err(e);
        },
    };
    let l = match listener.at(time) {
        Ok(l) => l,
        Err(e) => {
            return Err(e);
        },
    };
    let i: usize = match s {
        Lookup::Exact(i) => i,
        Lookup::Between(i) => i,
    };
    let j: usize = match l {
        Lookup::Exact(j) => j,
        Lookup::Between(j) => j,
    };
    let a = source.sample(i);
    let b = listener.sample(j);
    if same(&a.frame, &b.frame) && same(&a.segment, &b.segment) {
        Ok((s, l))
    } else {
        Err(PlanError::Mismatch)
    }
}

/// The audio of a plan.
pub fn plan_audio<'a>(plan: &'a Json) -> (res: Result<&'a String, PlanError>)
    ensures
        plan@.text_at("audio_path"@) is None ==> res == Err::<&'a String, _>(PlanError::Audio),
        plan@.text_at("audio_path"@) is Some ==> (res matches Ok(path) && plan@.text_at(
            "audio_path"@,
        ) == Some(path@)),
{
    match plan.text_at("audio_path") {
        Some(path) => Ok(path),
        None => Err(PlanError::Audio),
    }
}

/// How a plan is played: the channel, the size of a block, and whether sound fades with
/// distance.
#[derive(Clone, Copy, PartialEq, Eq, Structural, Debug)]
pub struct Setup {
    pub channel: u64,
    pub block: u64,
    pub bounded: bool,
}

/// How a plan with so much audio is played.
pub open spec fn setup_of(plan: Tree, channels: u16, frames: u64) -> Result<Setup, PlanError> {
    match plan.unsigned_at("channel"@) {
        None => Err(PlanError::Channel),
        Some(channel) => if channel >= channels || frames == 0 {
            Err(PlanError::Empty)
        } else {
            match plan.unsigned_at("block_size"@) {
                None => Err(PlanError::Block),
                Some(block) => match plan.text_at("distance_gain"@) {
                    None => Err(PlanError::Distance),
                    Some(law) => if law == "none"@ || law == "bounded_inverse"@ {
                        Ok(Setup { channel, block, bounded: law == "bounded_inverse"@ })
                    } else {
                        Err(PlanError::UnknownDistance)
                    },
                },
            }
        },
    }
}

/// How a plan with so much audio is played.
pub fn setup(plan: &Json, channels: u16, frames: u64) -> (res: Result<Setup, PlanError>)
    ensures
        res == setup_of(plan@, channels, frames),
{
    let channel: u64 = match plan.unsigned_at("channel") {
        Some(n) => n,
        None => {
            return Err(PlanError::Channel);
        },
    };
    if channel >= channels as u64 || frames == 0 {
        return Err(PlanError::Empty);
    }
    let block: u64 = match plan.unsigned_at("block_size") {
        Some(n) => n,
        None => {
            return Err(PlanError::Block);
        },
    };
    match plan.text_at("distance_gain") {
        None => Err(PlanError::Distance),
        Some(law) => {
            let bounded = same(law, "bounded_inverse");
            if bounded || same(law, "none") {
                Ok(Setup { channel, block, bounded })
            } else {
                Err(PlanError::UnknownDistance)
            }
        },
    }
}

/// The clock of a plan: a sample, its time, and how many nanoseconds lie between two
/// samples.
#[derive(Clone, Copy, PartialEq, Eq, Structural, Debug)]
pub struct PlanClock {
    pub reference_sample: i64,
    pub reference_time: i64,
    pub step: u64,
}

/// The clock of a plan, where all of it is there and it runs forwards.
pub open spec fn clock_of(plan: Tree) -> Result<PlanClock, PlanError> {
    match plan.get("clock_mapping"@) {
        None => Err(PlanError::Clock),
        Some(clock) => {
            let sample = clock.signed_at("reference_sample"@);
            let time = clock.signed_at("time_at_reference_ns"@);
            let step = clock.bits_at("ns_per_sample"@);
            if sample is Some && time is Some && step is Some && 0 < step->0 < INFINITY {
                Ok(
                    PlanClock {
                        reference_sample: sample->0,
                        reference_time: time->0,
                        step: step->0,
                    },
                )
            } else {
                Err(PlanError::Clock)
            }
        },
    }
}

/// The clock of a plan.
pub fn plan_clock(plan: &Json) -> (res: Result<PlanClock, PlanError>)
    ensures
        res == clock_of(plan@),
{
    let clock = match plan.get("clock_mapping") {
        Some(clock) => clock,
        None => {
            return Err(PlanError::Clock);
        },
    };
    let reference_sample: i64 = match clock.signed_at("reference_sample") {
        Some(n) => n,
        None => {
            return Err(PlanError::Clock);
        },
    };
    let reference_time: i64 = match clock.signed_at("time_at_reference_ns") {
        Some(n) => n,
        None => {
            return Err(PlanError::Clock);
        },
    };
    match clock.bits_at("ns_per_sample") {
        Some(step) => if 0 < step && step < INFINITY {
            Ok(PlanClock { reference_sample, reference_time, step })
        } else {
            Err(PlanError::Clock)
        },
        None => Err(PlanError::Clock),
    }
}

/// The clock of a plan says what the plan says, part by part: which sample it counts from,
/// the time of that sample, and how far apart two samples are. There is one exactly where
/// all three are there and the last is a positive finite number.
pub proof fn clocks_say_what_the_plan_says(plan: Tree)
    ensures
        clock_of(plan) matches Ok(c) ==> {
            &&& plan.get("clock_mapping"@) matches Some(clock)
            &&& clock.signed_at("reference_sample"@) == Some(c.reference_sample)
            &&& clock.signed_at("time_at_reference_ns"@) == Some(c.reference_time)
            &&& clock.bits_at("ns_per_sample"@) == Some(c.step)
            &&& 0 < c.step < 0x7ff0_0000_0000_0000
        },
        clock_of(plan) matches Err(e) ==> e == PlanError::Clock,
        clock_of(plan) is Ok <==> {
            &&& plan.get("clock_mapping"@) matches Some(clock)
            &&& clock.signed_at("reference_sample"@) is Some
            &&& clock.signed_at("time_at_reference_ns"@) is Some
            &&& clock.bits_at("ns_per_sample"@) matches Some(step)
            &&& 0 < step < 0x7ff0_0000_0000_0000
        },
{
}

/// A plan is played as it says: of its own channel, in blocks of its own size, and with a
/// bounded loss over distance exactly where it asks for that.
pub proof fn plans_are_played_as_they_say(plan: Tree, channels: u16, frames: u64)
    ensures
        setup_of(plan, channels, frames) matches Ok(s) ==> {
            &&& plan.unsigned_at("channel"@) == Some(s.channel)
            &&& plan.unsigned_at("block_size"@) == Some(s.block)
            &&& s.bounded ==> plan.text_at("distance_gain"@) == Some("bounded_inverse"@)
            &&& !s.bounded ==> plan.text_at("distance_gain"@) == Some("none"@)
            &&& s.channel < channels
            &&& frames > 0
        },
        setup_of(plan, channels, frames) is Ok <==> {
            &&& plan.unsigned_at("channel"@) matches Some(channel)
            &&& channel < channels && frames > 0
            &&& plan.unsigned_at("block_size"@) is Some
            &&& plan.text_at("distance_gain"@) == Some("none"@) || plan.text_at("distance_gain"@)
                == Some("bounded_inverse"@)
        },
{
    reveal_strlit("none");
    reveal_strlit("bounded_inverse");
    assert("none"@.len() == 4 && "bounded_inverse"@.len() == 15);
}

/// A row of a timeline stands for one pose, part by part: its time, where it is, how it is
/// turned, in which frame and segment, and whether it is valid.
pub proof fn rows_stand_for_their_poses(row: Tree, previous: int, unit: bool)
    ensures
        pin_of(row, previous, unit) matches Ok(p) ==> {
            &&& row.signed_at("effective_time_ns"@) == Some(p.at)
            &&& p.at > previous
            &&& row.items_at("position_m"@) matches Some(v)
            &&& v.len() == 3
            &&& v[0].bits() == Some(p.position.x)
            &&& v[1].bits() == Some(p.position.y)
            &&& v[2].bits() == Some(p.position.z)
            &&& row.items_at("rotation_xyzw"@) matches Some(q)
            &&& q.len() == 4
            &&& q[0].bits() == Some(p.rotation.x)
            &&& q[1].bits() == Some(p.rotation.y)
            &&& q[2].bits() == Some(p.rotation.z)
            &&& q[3].bits() == Some(p.rotation.w)
            &&& row.text_at("frame_id"@) == Some(p.frame)
            &&& row.text_at("segment_id"@) == Some(p.segment)
            &&& p.frame.len() > 0 && p.segment.len() > 0
            &&& p.valid <==> row.text_at("validity"@) == Some("valid"@)
            &&& unit
            &&& p.position.is_finite() && p.rotation.is_finite()
        },
        pin_of(row, previous, unit) == Err::<Pin, _>(PlanError::Time) <==> row.signed_at(
            "effective_time_ns"@,
        ) is None,
        pin_of(row, previous, unit) == Err::<Pin, _>(PlanError::Frame) ==> row.text_at(
            "frame_id"@,
        ) is None,
        pin_of(row, previous, unit) == Err::<Pin, _>(PlanError::Segment) ==> row.text_at(
            "segment_id"@,
        ) is None,
        pin_of(row, previous, unit) == Err::<Pin, _>(PlanError::Order) ==> row.signed_at(
            "effective_time_ns"@,
        )->0 <= previous || row.text_at("frame_id"@)->0.len() == 0 || row.text_at(
            "segment_id"@,
        )->0.len() == 0,
        pin_of(row, previous, unit) == Err::<Pin, _>(PlanError::Values) && unit ==> !(math::vec3_in(
            row.get("position_m"@)->0,
        )->0.is_finite() && math::quat_in(row.get("rotation_xyzw"@)->0)->0.is_finite()),
{
    match pin_of(row, previous, unit) {
        Ok(p) => {
            math::vectors_are_listed(row.get("position_m"@)->0);
            math::rotations_are_listed(row.get("rotation_xyzw"@)->0);
        },
        Err(_) => {},
    }
}

/// A timeline holds one pose for each of its rows, in their order.
pub proof fn timelines_hold_every_row(rows: Seq<Tree>, unit: Seq<bool>, n: nat, i: int)
    requires
        pins_of(rows, unit, n) is Ok,
        0 <= i < n,
    ensures
        pins_of(rows, unit, n)->Ok_0.len() == n,
        rows[i].signed_at("effective_time_ns"@) == Some(pins_of(rows, unit, n)->Ok_0[i].at),
        exists|previous: int| #[trigger]
            pin_of(rows[i], previous, unit[i]) == Ok::<_, PlanError>(
                pins_of(rows, unit, n)->Ok_0[i],
            ),
    decreases n,
{
    pins_rise(rows, unit, n);
    if i < n - 1 {
        timelines_hold_every_row(rows, unit, (n - 1) as nat, i);
    } else {
        pins_rise(rows, unit, (n - 1) as nat);
        let before = pins_of(rows, unit, (n - 1) as nat)->Ok_0;
        let previous = if before.len() == 0 {
            -1int
        } else {
            before.last().at as int
        };
        assert(pin_of(rows[i], previous, unit[i]) is Ok);
    }
}

/// A pose is told wherever one can be: at a valid pose, and between two valid poses of one
/// frame and segment that follow each other within a quarter of a second.
pub proof fn poses_are_told_where_they_can_be(pins: Seq<Pin>, time: i64, i: int)
    requires
        rising(pins),
        pins.len() <= usize::MAX,
        0 <= i < pins.len(),
    ensures
        pins[i].at == time ==> lookup(pins, time) == (if pins[i].valid {
            Ok(Lookup::Exact(i as usize))
        } else {
            Err(PlanError::Invalid)
        }),
        i + 1 < pins.len() && pins[i].at < time < pins[i + 1].at ==> lookup(pins, time) == (
        if pins[i].valid && pins[i + 1].valid && pins[i].frame == pins[i + 1].frame
            && pins[i].segment == pins[i + 1].segment && pins[i + 1].at - pins[i].at
            <= 250_000_000 {
            Ok(Lookup::Between(i as usize))
        } else {
            Err(PlanError::Gap)
        }),
        time < pins[0].at || time > pins.last().at ==> lookup(pins, time) == Err::<Lookup, _>(
            PlanError::Uncovered,
        ),
{
    before_parts(pins, time, 0);
    let next = before(pins, time, 0);
    if pins[i].at == time {
        if next < i {
            assert(pins[next].at < pins[i].at);
        }
    } else if i + 1 < pins.len() && pins[i].at < time < pins[i + 1].at {
        if next < i + 1 {
            assert(pins[i].at >= time);
        }
    }
    if time > pins.last().at && next < pins.len() {
        assert(pins[next].at >= time);
        if next < pins.len() - 1 {
            assert(pins[next].at < pins[pins.len() - 1].at);
        }
    }
}

/// Source and listener are told together: each on its own timeline, and only within one
/// frame and segment.
pub proof fn source_and_listener_belong_together(
    source: Seq<Pin>,
    listener: Seq<Pin>,
    time: i64,
)
    requires
        rising(source),
        rising(listener),
        source.len() <= usize::MAX,
        listener.len() <= usize::MAX,
    ensures
        both_at(source, listener, time) matches Ok(r) ==> {
            &&& lookup(source, time) == Ok::<_, PlanError>(r.0)
            &&& lookup(listener, time) == Ok::<_, PlanError>(r.1)
            &&& {
                let s = source[match r.0 {
                    Lookup::Exact(i) => i as int,
                    Lookup::Between(i) => i as int,
                }];
                let l = listener[match r.1 {
                    Lookup::Exact(i) => i as int,
                    Lookup::Between(i) => i as int,
                }];
                s.frame == l.frame && s.segment == l.segment && s.valid && l.valid && s.at <= time
                    && l.at <= time
            }
        },
        lookup(source, time) matches Err(e) ==> both_at(source, listener, time) == Err::<
            (Lookup, Lookup),
            _,
        >(e),
{
    if both_at(source, listener, time) is Ok {
        no_pose_is_made_up(source, time);
        no_pose_is_made_up(listener, time);
    }
}

/// A frame is whole exactly where it ends within the samples.
proof fn frames_end(n: int, channels: int, i: int)
    requires
        0 <= n,
        0 < channels,
    ensures
        i < n / channels <==> (i + 1) * channels <= n,
{
    vstd::arithmetic::div_mod::lemma_fundamental_div_mod(n, channels);
    let frames = n / channels;
    if i < frames {
        assert((i + 1) * channels <= frames * channels) by (nonlinear_arith)
            requires
                i + 1 <= frames,
                channels > 0,
        ;
        assert(frames * channels == channels * frames) by (nonlinear_arith);
    } else {
        assert((i + 1) * channels >= (frames + 1) * channels) by (nonlinear_arith)
            requires
                i + 1 >= frames + 1,
                channels > 0,
        ;
        assert((frames + 1) * channels == channels * frames + channels) by (nonlinear_arith);
    }
}

/// Of interleaved frames every sample of the channel is taken in its place, and nothing of
/// another channel; what is missing to a block is silent.
pub proof fn the_channel_is_taken(
    samples: Seq<u32>,
    other: Seq<u32>,
    channels: int,
    channel: int,
    block: nat,
)
    requires
        0 <= channel < channels,
    ensures
        ({
            let mono = channel_of(samples, channels, channel, block);
            &&& mono.len() == block
            &&& forall|i: int|
                0 <= i < block && (i + 1) * channels <= samples.len() ==> #[trigger] mono[i]
                    == samples[channel + i * channels]
            &&& forall|i: int|
                0 <= i < block && (i + 1) * channels > samples.len() ==> #[trigger] mono[i] == 0
        }),
        other.len() == samples.len() && (forall|k: int|
            0 <= k < samples.len() && k % channels == channel ==> #[trigger] samples[k]
                == other[k]) ==> channel_of(samples, channels, channel, block) == channel_of(
            other,
            channels,
            channel,
            block,
        ),
{
    let n = samples.len() as int;
    vstd::arithmetic::div_mod::lemma_fundamental_div_mod(n, channels);
    let frames = n / channels;
    let mono = channel_of(samples, channels, channel, block);
    assert forall|i: int| 0 <= i < block && (i + 1) * channels <= n implies #[trigger] mono[i]
        == samples[channel + i * channels] by {
        frames_end(n, channels, i);
    }
    assert forall|i: int| 0 <= i < block && (i + 1) * channels > n implies #[trigger] mono[i]
        == 0 by {
        frames_end(n, channels, i);
    }
    if other.len() == samples.len() && (forall|k: int|
        0 <= k < samples.len() && k % channels == channel ==> #[trigger] samples[k] == other[k]) {
        let a = channel_of(samples, channels, channel, block);
        let b = channel_of(other, channels, channel, block);
        assert forall|i: int| 0 <= i < block implies a[i] == b[i] by {
            frames_end(n, channels, i);
            if i < frames {
                let k = i * channels + channel;
                assert((i + 1) * channels == i * channels + channels) by (nonlinear_arith);
                assert(0 <= i * channels) by (nonlinear_arith)
                    requires
                        0 <= i,
                        channels > 0,
                ;
                vstd::arithmetic::div_mod::lemma_mod_multiples_vanish(i, channel, channels);
                vstd::arithmetic::div_mod::lemma_small_mod(channel as nat, channels as nat);
                assert(channels * i + channel == k) by (nonlinear_arith)
                    requires
                        k == i * channels + channel,
                ;
                assert(samples[k] == other[k]);
            }
        }
        assert(a =~= b);
    }
}

/// One channel of whole frames, filled up with silence to a block.
pub open spec fn channel_of(samples: Seq<u32>, channels: int, channel: int, block: nat) -> Seq<u32> {
    Seq::new(
        block,
        |i: int|
            if i < samples.len() as int / channels {
                samples[i * channels + channel]
            } else {
                0
            },
    )
}

/// One channel of whole frames, filled up with silence to a block.
pub fn pick(samples: &[u32], channels: usize, channel: usize, block: usize) -> (mono: Vec<u32>)
    requires
        channel < channels,
        samples@.len() as int / channels as int <= block,
    ensures
        mono@ == channel_of(samples@, channels as int, channel as int, block as nat),
{
    let frames: usize = samples.len() / channels;
    let mut mono: Vec<u32> = Vec::new();
    let mut at: usize = channel;
    assert(0 * channels == 0) by (nonlinear_arith);
    while mono.len() < block
        invariant
            channel < channels,
            frames == samples.len() / channels,
            mono.len() <= block,
            mono.len() < frames ==> at == mono.len() * channels + channel,
            forall|i: int|
                0 <= i < mono.len() ==> mono@[i] == channel_of(
                    samples@,
                    channels as int,
                    channel as int,
                    block as nat,
                )[i],
        decreases block - mono.len(),
    {
        let i: usize = mono.len();
        if i < frames {
            proof {
                let n = samples.len() as int;
                let c = channels as int;
                vstd::arithmetic::div_mod::lemma_fundamental_div_mod(n, c);
                assert((i + 1) * c <= c * frames) by (nonlinear_arith)
                    requires
                        i + 1 <= frames,
                        c > 0,
                ;
                assert((i + 1) * c == i * c + c) by (nonlinear_arith);
            }
            mono.push(samples[at]);
            if i + 1 < frames {
                proof {
                    let n = samples.len() as int;
                    let c = channels as int;
                    vstd::arithmetic::div_mod::lemma_fundamental_div_mod(n, c);
                    assert((i + 2) * c <= c * frames) by (nonlinear_arith)
                        requires
                            i + 2 <= frames,
                            c > 0,
                    ;
                    assert((i + 2) * c == i * c + c + c) by (nonlinear_arith);
                    assert((i + 1) * c == i * c + c) by (nonlinear_arith);
                }
                at = at + channels;
            }
        } else {
            mono.push(0);
        }
    }
    assert(mono@ =~= channel_of(samples@, channels as int, channel as int, block as nat));
    mono
}

/// What comes next while a plan is read.
#[derive(Clone, Copy, PartialEq, Eq, Structural, Debug)]
pub enum Move {
    /// What was asked for is there.
    Done,
    /// Samples wait to be taken.
    Take,
    /// So many frames from one on have to be processed.
    Fill(u64, u32),
    /// What still sounds has to be had from the processor.
    Drain,
    /// There is nothing more.
    End,
}

/// The stream of a plan: how far the audio has been processed, and what waits to be
/// taken.
#[derive(Debug)]
pub struct Feed {
    frames: u64,
    block: u32,
    first: u64,
    buffer: Vec<u32>,
    read: usize,
    finished: bool,
}

/// What comes next of audio of which some samples are held.
pub open spec fn next_move(
    held: Seq<u32>,
    finished: bool,
    at: u64,
    frames: u64,
    block: u32,
    wanted: usize,
) -> Move {
    if wanted == 0 {
        Move::Done
    } else if held.len() > 0 {
        Move::Take
    } else if finished {
        Move::End
    } else if at < frames {
        Move::Fill(
            at,
            if frames - at < block {
                (frames - at) as u32
            } else {
                block
            },
        )
    } else {
        Move::Drain
    }
}

impl Feed {
    /// The samples that wait.
    pub closed spec fn held(&self) -> Seq<u32> {
        self.buffer@.skip(self.read as int)
    }

    /// The frame from which on audio is still to be processed.
    pub closed spec fn at(&self) -> u64 {
        self.first
    }

    pub closed spec fn frames(&self) -> u64 {
        self.frames
    }

    pub closed spec fn block(&self) -> u32 {
        self.block
    }

    /// The processor has nothing more.
    pub closed spec fn is_finished(&self) -> bool {
        self.finished
    }

    pub closed spec fn wf(&self) -> bool {
        self.read <= self.buffer@.len() && self.first <= self.frames
    }

    pub fn new(frames: u64, block: u32) -> (feed: Feed)
        ensures
            feed.wf(),
            feed.held() == Seq::<u32>::empty(),
            feed.at() == 0,
            feed.frames() == frames,
            feed.block() == block,
            !feed.is_finished(),
    {
        let feed = Feed { frames, block, first: 0, buffer: Vec::new(), read: 0, finished: false };
        assert(feed.held() =~= Seq::<u32>::empty());
        feed
    }

    /// What comes next, when so many samples are still wanted.
    pub fn next(&self, wanted: usize) -> (step: Move)
        requires
            self.wf(),
        ensures
            step == next_move(
                self.held(),
                self.is_finished(),
                self.at(),
                self.frames(),
                self.block(),
                wanted,
            ),
    {
        if wanted == 0 {
            return Move::Done;
        }
        if self.read < self.buffer.len() {
            return Move::Take;
        }
        if self.finished {
            return Move::End;
        }
        if self.first < self.frames {
            let left: u64 = self.frames - self.first;
            let count: u32 = if left < self.block as u64 {
                left as u32
            } else {
                self.block
            };
            return Move::Fill(self.first, count);
        }
        Move::Drain
    }

    /// So many frames were processed to these samples.
    pub fn filled(&mut self, samples: Vec<u32>, count: u32)
        requires
            old(self).wf(),
            count <= old(self).frames() - old(self).at(),
        ensures
            final(self).wf(),
            final(self).held() == samples@,
            final(self).at() == old(self).at() + count,
            final(self).frames() == old(self).frames(),
            final(self).block() == old(self).block(),
            final(self).is_finished() == old(self).is_finished(),
    {
        self.buffer = samples;
        self.read = 0;
        self.first = self.first + count as u64;
        assert(self.held() =~= self.buffer@);
    }

    /// These samples still sounded, and whether they were the last. The reading goes
    /// on if there were any.
    pub fn drained(&mut self, samples: Vec<u32>, done: bool) -> (goes_on: bool)
        requires
            old(self).wf(),
        ensures
            final(self).wf(),
            final(self).held() == samples@,
            final(self).at() == old(self).at(),
            final(self).frames() == old(self).frames(),
            final(self).block() == old(self).block(),
            final(self).is_finished() == done,
            goes_on == (samples@.len() > 0),
    {
        let goes_on = samples.len() > 0;
        self.buffer = samples;
        self.read = 0;
        self.finished = done;
        assert(self.held() =~= self.buffer@);
        goes_on
    }

    /// Takes as many samples as wait and are wanted.
    pub fn take(&mut self, out: &mut Vec<u32>, wanted: usize)
        requires
            old(self).wf(),
        ensures
            final(self).wf(),
            final(self).at() == old(self).at(),
            final(self).frames() == old(self).frames(),
            final(self).block() == old(self).block(),
            final(self).is_finished() == old(self).is_finished(),
            ({
                let n = if wanted < old(self).held().len() {
                    wanted as int
                } else {
                    old(self).held().len() as int
                };
                &&& final(out)@ == old(out)@ + old(self).held().take(n)
                &&& final(self).held() == old(self).held().skip(n)
            }),
    {
        let left: usize = self.buffer.len() - self.read;
        let n: usize = if wanted < left {
            wanted
        } else {
            left
        };
        let ghost held = self.held();
        let ghost start = out@;
        let mut i: usize = 0;
        assert(out@ =~= start + held.take(0));
        while i < n
            invariant
                self.wf(),
                i <= n,
                self.read + n <= self.buffer.len(),
                held == self.buffer@.skip(self.read as int),
                out@ == start + held.take(i as int),
            decreases n - i,
        {
            out.push(self.buffer[self.read + i]);
            i += 1;
            assert(out@ =~= start + held.take(i as int));
        }
        self.read = self.read + n;
        assert(self.held() =~= held.skip(n as int));
    }
}

/// A recording that plays between two silences.
#[derive(Clone, Copy, PartialEq, Eq, Structural, Debug)]
pub struct Playback {
    leading: usize,
    frames: u64,
    first: u64,
    trailing: usize,
}

/// What is given at once: so many silent frames, so many frames of audio from one on,
/// and so many silent ones again.
#[derive(Clone, Copy, PartialEq, Eq, Structural, Debug)]
pub struct Part {
    pub lead: usize,
    pub first: u64,
    pub audio: u32,
    pub trail: usize,
}

pub open spec fn least(a: int, b: int) -> int {
    if a < b {
        a
    } else {
        b
    }
}

impl Playback {
    /// The silent frames before, the audio and the silent frames after that are left.
    pub closed spec fn leading(&self) -> int {
        self.leading as int
    }

    pub closed spec fn audio(&self) -> int {
        self.frames - self.first
    }

    pub closed spec fn trailing(&self) -> int {
        self.trailing as int
    }

    /// The next frame of audio.
    pub closed spec fn next(&self) -> u64 {
        self.first
    }

    pub closed spec fn wf(&self) -> bool {
        self.first <= self.frames
    }

    /// A recording of so many frames between two silences of so many.
    pub fn open(boundary: usize, frames: u64) -> (res: Result<Playback, PlanError>)
        ensures
            boundary <= 48000 ==> (res matches Ok(p) && p.wf() && p.leading() == boundary
                && p.audio() == frames && p.trailing() == boundary && p.next() == 0),
            boundary > 48000 ==> res == Err::<Playback, _>(PlanError::Boundary),
    {
        if boundary > 48000 {
            return Err(PlanError::Boundary);
        }
        Ok(Playback { leading: boundary, frames, first: 0, trailing: boundary })
    }

    /// Whether so many frames can be read at once.
    pub fn allowed(count: usize) -> (res: Result<(), PlanError>)
        ensures
            res == (if count > 480000 {
                Err(PlanError::Limit)
            } else {
                Ok(())
            }),
    {
        if count > 480000 {
            return Err(PlanError::Limit);
        }
        Ok(())
    }

    /// How many of so many frames are silent ones before the audio.
    pub fn lead(&mut self, count: usize) -> (res: Result<usize, PlanError>)
        requires
            old(self).wf(),
        ensures
            final(self).wf(),
            final(self).audio() == old(self).audio(),
            final(self).trailing() == old(self).trailing(),
            final(self).next() == old(self).next(),
            count > 480000 ==> res == Err::<usize, _>(PlanError::Limit) && final(self).leading()
                == old(self).leading(),
            count <= 480000 ==> (res matches Ok(n) && n == least(
                count as int,
                old(self).leading(),
            ) && final(self).leading() == old(self).leading() - n),
    {
        match Playback::allowed(count) {
            Ok(_) => {},
            Err(e) => {
                return Err(e);
            },
        }
        let n: usize = if count < self.leading {
            count
        } else {
            self.leading
        };
        self.leading = self.leading - n;
        Ok(n)
    }

    /// How many of so many frames are silent ones behind the audio.
    pub fn trail(&mut self, missing: usize) -> (n: usize)
        requires
            old(self).wf(),
        ensures
            final(self).wf(),
            final(self).leading() == old(self).leading(),
            final(self).audio() == old(self).audio(),
            final(self).next() == old(self).next(),
            n == least(missing as int, old(self).trailing()),
            final(self).trailing() == old(self).trailing() - n,
    {
        let n: usize = if missing < self.trailing {
            missing
        } else {
            self.trailing
        };
        self.trailing = self.trailing - n;
        n
    }

    /// What so many frames are, as far as there are any. The silence before the audio is
    /// passed; the audio and the silence behind it are left where they are until they have
    /// been read.
    pub fn read(&mut self, count: usize) -> (res: Result<Part, PlanError>)
        requires
            old(self).wf(),
        ensures
            final(self).wf(),
            count > 480000 ==> res == Err::<Part, _>(PlanError::Limit) && *final(self) == *old(self),
            count <= 480000 ==> (res matches Ok(part) && part.first == old(self).next()
                && part.lead == least(count as int, old(self).leading()) && part.audio == least(
                count - part.lead,
                old(self).audio(),
            ) && part.trail == least(count - part.lead - part.audio, old(self).trailing())
                && final(self).leading() == old(self).leading() - part.lead && final(self).audio()
                == old(self).audio() && final(self).trailing() == old(self).trailing()
                && final(self).next() == old(self).next()),
    {
        let lead: usize = match self.lead(count) {
            Ok(n) => n,
            Err(e) => {
                return Err(e);
            },
        };
        let first: u64 = self.first;
        let left: u64 = self.frames - first;
        let wanted: u64 = (count - lead) as u64;
        let audio: u32 = if left < wanted {
            left as u32
        } else {
            wanted as u32
        };
        let rest: usize = count - lead - audio as usize;
        let trail: usize = if rest < self.trailing {
            rest
        } else {
            self.trailing
        };
        Ok(Part { lead, first, audio, trail })
    }

    /// The audio of a part has been read, so it and the silence behind it are passed. A
    /// part that could not be read is not, and comes again.
    pub fn pass(&mut self, part: Part)
        requires
            old(self).wf(),
            part.first == old(self).next(),
            part.audio <= old(self).audio(),
            part.trail <= old(self).trailing(),
        ensures
            final(self).wf(),
            final(self).next() == old(self).next() + part.audio,
            final(self).leading() == old(self).leading(),
            final(self).audio() == old(self).audio() - part.audio,
            final(self).trailing() == old(self).trailing() - part.trail,
    {
        self.first = self.first + part.audio as u64;
        self.trailing = self.trailing - part.trail;
    }
}

/// A recording plays once, between its silences: however it is read, each read gives
/// what is left up to what was asked for, and the audio comes without a break.
pub proof fn playback_is_complete(leading: int, audio: int, trailing: int, count: int)
    requires
        0 <= leading,
        0 <= audio,
        0 <= trailing,
        0 <= count,
    ensures
        ({
            let a = least(count, leading);
            let b = least(count - a, audio);
            let c = least(count - a - b, trailing);
            &&& a + b + c == least(count, leading + audio + trailing)
            &&& b > 0 ==> a == leading
            &&& c > 0 ==> b == audio
        }),
{
}

/// A timeline is a list of one to a million rows, and each row's pose.
pub proof fn timelines_are_lists_of_rows(rows: Tree, unit: Seq<bool>)
    ensures
        !(rows is Array) ==> timeline_of(rows, unit) == Err::<Seq<Pin>, _>(PlanError::Timeline),
        rows is Array && (rows->Array_0.len() == 0 || rows->Array_0.len() > 1_000_000)
            ==> timeline_of(rows, unit) == Err::<Seq<Pin>, _>(PlanError::Length),
        timeline_of(rows, unit) matches Ok(pins) ==> rows is Array && pins.len()
            == rows->Array_0.len() && 1 <= pins.len() <= 1_000_000,
        rows is Array && 1 <= rows->Array_0.len() <= 1_000_000 ==> timeline_of(rows, unit)
            == pins_of(rows->Array_0, unit, rows->Array_0.len()),
{
    if timeline_of(rows, unit) is Ok {
        timelines_hold_every_row(rows->Array_0, unit, rows->Array_0.len(), 0);
    }
}

/// What is held is taken before more is read; audio is read in blocks from where it stands
/// until its end, and no further; then the tail is drawn until it is over.
pub proof fn audio_is_read_to_its_end(
    held: Seq<u32>,
    finished: bool,
    at: u64,
    frames: u64,
    block: u32,
    wanted: usize,
)
    requires
        block > 0,
    ensures
        ({
            let m = next_move(held, finished, at, frames, block, wanted);
            &&& m is Done <==> wanted == 0
            &&& m is Take <==> wanted > 0 && held.len() > 0
            &&& m is End <==> wanted > 0 && held.len() == 0 && finished
            &&& m is Drain <==> wanted > 0 && held.len() == 0 && !finished && at >= frames
            &&& m matches Move::Fill(from, count) ==> from == at && 0 < count <= block && from
                + count <= frames && (count == block || from + count == frames)
        }),
{
}

} // verus!
