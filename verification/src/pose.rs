//! The live position of the mouth against the camera: what the tracked fields are,
//! which of them can be trusted, and for how long. Numbers are the bit patterns of
//! doubles. Trigonometry and arithmetic on them is done outside; their results come
//! in as arguments.
use crate::bits;
use crate::bits::{finite, fraction, ONE, SIGN};
use crate::json::{Json, Tree};
use crate::math::{Pose, Quat, Vec3};
use crate::osc;
use crate::osc::{Message, Signal};
use crate::text::{same, starts_with, TextMap};
use vstd::prelude::*;

verus! {

broadcast use vstd::string::group_string_axioms;

/// The largest number whose thousandfold is finite.
pub const LARGEST_SCALE: u64 = 0x7f50_624d_d2f1_a9fb;

/// The smallest and the largest number that are within a millionth of 1.0.
pub const NEARLY_ONE_LOW: u64 = 0x3fef_fffd_e721_0bea;

pub const NEARLY_ONE_HIGH: u64 = 0x3ff0_0001_0c6f_7a0b;

/// The bits of 2.0 and of -1.0.
pub const TWO: u64 = 0x4000_0000_0000_0000;

pub const MINUS_ONE: u64 = 0xbff0_0000_0000_0000;

/// The time of what has not happened.
pub const NEVER: i64 = -1;

/// A time before all others that matter.
pub const LONG_AGO: i64 = -10_000_000_000;

/// A tracked number and when it came.
#[derive(Clone, Copy, PartialEq, Eq, Structural, Debug)]
pub struct Field {
    pub value: u64,
    pub time_ns: i64,
}

/// What is known of the sign of one axis.
#[derive(Clone, Copy, PartialEq, Eq, Structural, Debug)]
pub struct Sign {
    pub contact: u64,
    pub near_at_ns: i64,
    pub mismatch_at_ns: i64,
    pub inferred: bool,
}

/// Which probe the mouth is taken from.
#[derive(Clone, Copy, PartialEq, Eq, Structural, Debug)]
pub enum SourceMode {
    Auto,
    HeadOffset,
    MouthProbe,
}

/// Why a pose cannot be made, fed, evaluated or restored.
#[derive(Clone, Copy, PartialEq, Eq, Structural, Debug)]
pub enum PoseError {
    /// A component of the offset is not finite or exceeds a metre.
    Offset,
    /// There is no such source mode.
    Mode,
    /// A pose holds something other than numbers.
    Number,
    /// A pose has not six finite numbers.
    SixNumbers,
    /// A time is earlier than the one before it.
    Backwards,
    /// A checkpoint is of another version or too large.
    Checkpoint,
    /// A checkpoint holds a number that is not finite.
    Nonfinite,
    /// A position in a checkpoint is not finite.
    Position,
    /// A rotation in a checkpoint is no rotation.
    Rotation,
}

/// What has to be computed outside before a message can be taken in.
#[derive(Clone, Copy, PartialEq, Eq, Structural, Debug)]
pub enum Ask {
    Nothing,
    /// The rotation for three angles in degrees.
    Rotation(u64, u64, u64),
    /// Whether the second number is more than a millionth away from the first, in
    /// proportion to the larger of them.
    Drift(u64, u64),
}

/// What was computed outside for a message.
#[derive(Clone, Copy, PartialEq, Eq, Structural, Debug)]
pub struct Answer {
    pub rotation: Quat,
    pub drift: bool,
}

/// What the tracked fields amount to at a time.
#[derive(Debug)]
pub struct LivePose {
    fields: TextMap<Field>,
    signs: Vec<Sign>,
    camera: Pose,
    hmd: Pose,
    camera_seen: bool,
    hmd_seen: bool,
    mouth_signal_ns: i64,
    last_signal_ns: i64,
    reset_at_ns: i64,
    last_eval_ns: i64,
    last_yaw: u64,
    yaw_at_ns: i64,
    epoch: u64,
    source_mode: SourceMode,
    mouth_offset_m: Vec3,
    scale_changed_at_ns: Option<i64>,
    scale_invalid: bool,
}

/// A live pose by its contents.
#[verifier::ext_equal]
pub ghost struct Track {
    pub fields: Map<Seq<char>, Field>,
    pub signs: Seq<Sign>,
    pub camera: Pose,
    pub hmd: Pose,
    pub camera_seen: bool,
    pub hmd_seen: bool,
    pub mouth_signal_ns: i64,
    pub last_signal_ns: i64,
    pub reset_at_ns: i64,
    pub last_eval_ns: i64,
    pub last_yaw: u64,
    pub yaw_at_ns: i64,
    pub epoch: u64,
    pub source_mode: SourceMode,
    pub mouth_offset_m: Vec3,
    pub scale_changed_at_ns: Option<i64>,
    pub scale_invalid: bool,
}

impl View for LivePose {
    type V = Track;

    closed spec fn view(&self) -> Track {
        Track {
            fields: self.fields@,
            signs: self.signs@,
            camera: self.camera,
            hmd: self.hmd,
            camera_seen: self.camera_seen,
            hmd_seen: self.hmd_seen,
            mouth_signal_ns: self.mouth_signal_ns,
            last_signal_ns: self.last_signal_ns,
            reset_at_ns: self.reset_at_ns,
            last_eval_ns: self.last_eval_ns,
            last_yaw: self.last_yaw,
            yaw_at_ns: self.yaw_at_ns,
            epoch: self.epoch,
            source_mode: self.source_mode,
            mouth_offset_m: self.mouth_offset_m,
            scale_changed_at_ns: self.scale_changed_at_ns,
            scale_invalid: self.scale_invalid,
        }
    }
}

/// The sign of an axis of which nothing is known.
pub open spec fn unknown_sign() -> Sign {
    Sign {
        contact: MINUS_ONE,
        near_at_ns: LONG_AGO,
        mismatch_at_ns: NEVER,
        inferred: false,
    }
}

/// Nothing is known of any of the nine axes.
pub open spec fn unknown_signs() -> Seq<Sign> {
    Seq::new(9, |i: int| unknown_sign())
}

/// At the origin, not turned.
pub open spec fn origin() -> Pose {
    Pose { time_ns: 0, position: Vec3 { x: 0, y: 0, z: 0 }, rotation: Quat { x: 0, y: 0, z: 0, w: ONE } }
}

/// A pose that has seen nothing.
pub open spec fn fresh(offset: Vec3, mode: SourceMode) -> Track {
    Track {
        fields: Map::empty(),
        signs: unknown_signs(),
        camera: origin(),
        hmd: origin(),
        camera_seen: false,
        hmd_seen: false,
        mouth_signal_ns: NEVER,
        last_signal_ns: NEVER,
        reset_at_ns: NEVER,
        last_eval_ns: NEVER,
        last_yaw: 0,
        yaw_at_ns: LONG_AGO,
        epoch: 0,
        source_mode: mode,
        mouth_offset_m: offset,
        scale_changed_at_ns: None,
        scale_invalid: false,
    }
}

/// The mode of a name.
pub open spec fn mode_named(name: Seq<char>) -> Option<SourceMode> {
    if name == "auto"@ {
        Some(SourceMode::Auto)
    } else if name == "head_offset"@ {
        Some(SourceMode::HeadOffset)
    } else if name == "mouth_probe"@ {
        Some(SourceMode::MouthProbe)
    } else {
        None
    }
}

/// The mode of a name.
pub fn source_mode(name: &str) -> (res: Option<SourceMode>)
    ensures
        res == mode_named(name@),
{
    if same(name, "auto") {
        Some(SourceMode::Auto)
    } else if same(name, "head_offset") {
        Some(SourceMode::HeadOffset)
    } else if same(name, "mouth_probe") {
        Some(SourceMode::MouthProbe)
    } else {
        None
    }
}

/// The state after an avatar change: nothing that was seen counts any more.
pub open spec fn changed_avatar(s: Track, at: i64) -> Track {
    Track {
        fields: Map::empty(),
        signs: unknown_signs(),
        camera_seen: false,
        hmd_seen: false,
        reset_at_ns: at,
        epoch: (s.epoch + 1) as u64,
        last_signal_ns: NEVER,
        mouth_signal_ns: NEVER,
        yaw_at_ns: LONG_AGO,
        scale_changed_at_ns: None,
        scale_invalid: false,
        ..s
    }
}

/// The answer to a request, which is older than what has come since it was sent.
pub open spec fn outdated(s: Track, address: Seq<char>, request_start: i64) -> bool {
    ||| s.reset_at_ns >= request_start
    ||| s.fields.contains_key(address) && s.fields[address].time_ns >= request_start
}

pub open spec fn is_pose(m: Signal) -> bool {
    m.typetag == ",ffffff"@ && (m.address == "/usercamera/Pose"@ || m.address
        == "/tracking/vrsystem/head/pose"@)
}

pub open spec fn is_scale(m: Signal) -> bool {
    m.address == "/avatar/parameters/ScaleFactor"@ && m.typetag == ",f"@ && m.values.len() == 1
}

pub open spec fn is_version(m: Signal) -> bool {
    &&& m.address == "/avatar/parameters/VBS/Ref/ProbeVersion"@
    &&& m.typetag == ",i"@
    &&& m.values.len() == 1
    &&& m.values[0].signed() is Some
}

pub open spec fn is_head(address: Seq<char>) -> bool {
    crate::text::begins(address, "/avatar/parameters/VBS/Ref/head/"@)
}

pub open spec fn is_mouth(address: Seq<char>) -> bool {
    crate::text::begins(address, "/avatar/parameters/VBS/Ref/mouth/"@)
}

/// A coordinate of the head or the mouth.
pub open spec fn is_coordinate(m: Signal) -> bool {
    &&& is_head(m.address) || is_mouth(m.address)
    &&& m.typetag == ",f"@
    &&& m.values.len() == 1
    &&& m.values[0].bits() is Some
}

/// A scale that can be worked with: positive, and its thousandfold is finite.
pub open spec fn usable_scale(value: Tree) -> bool {
    value.bits() is Some && 0 < value.bits()->0 <= LARGEST_SCALE
}

/// The numbers of a pose message.
pub open spec fn numbers(values: Seq<Tree>) -> Result<Seq<u64>, PoseError> {
    if exists|i: int| 0 <= i < values.len() && (#[trigger] values[i]).bits() is None {
        Err(PoseError::Number)
    } else if values.len() != 6 || exists|i: int|
        0 <= i < values.len() && !bits::is_finite((#[trigger] values[i]).bits()->0) {
        Err(PoseError::SixNumbers)
    } else {
        Ok(Seq::new(6, |i: int| values[i].bits()->0))
    }
}

/// The pose of a message: its position with the last axis turned round, and the
/// rotation for its angles.
pub open spec fn pose_of(numbers: Seq<u64>, rotation: Quat, at: i64) -> Pose {
    Pose {
        time_ns: at,
        position: Vec3 { x: numbers[0], y: numbers[1], z: bits::negative(numbers[2]) },
        rotation,
    }
}

/// The state after a scale.
pub open spec fn scaled(s: Track, value: u64, at: i64, drift: bool) -> Track {
    let scale = "/avatar/parameters/ScaleFactor"@;
    let known = s.fields.contains_key(scale);
    let apart = value < NEARLY_ONE_LOW || value > NEARLY_ONE_HIGH;
    let fields = s.fields.insert(scale, Field { value, time_ns: at });
    if (known && drift) || s.scale_invalid || (!known && apart) {
        Track {
            fields,
            scale_changed_at_ns: Some(at),
            signs: unknown_signs(),
            scale_invalid: false,
            ..s
        }
    } else {
        Track { fields, scale_invalid: false, ..s }
    }
}

/// The state after a message. A snapshot is the answer to a request that was sent at
/// `request_start`.
pub open spec fn fed(
    s: Track,
    m: Signal,
    at: i64,
    snapshot: bool,
    request_start: i64,
    answer: Answer,
) -> Result<Track, PoseError> {
    if m.address == "/avatar/change"@ && !snapshot {
        Ok(changed_avatar(s, at))
    } else if snapshot && outdated(s, m.address, request_start) {
        Ok(s)
    } else if !snapshot && is_pose(m) {
        match numbers(m.values) {
            Err(e) => Err(e),
            Ok(list) => {
                let pose = pose_of(list, answer.rotation, at);
                if m.address == "/usercamera/Pose"@ {
                    Ok(Track { camera: pose, camera_seen: true, ..s })
                } else {
                    Ok(Track { hmd: pose, hmd_seen: true, last_signal_ns: at, ..s })
                }
            },
        }
    } else if is_scale(m) {
        if usable_scale(m.values[0]) {
            Ok(scaled(s, m.values[0].bits()->0, at, answer.drift))
        } else {
            Ok(Track { scale_invalid: true, ..s })
        }
    } else if is_version(m) {
        Ok(
            Track {
                fields: s.fields.insert(
                    m.address,
                    Field { value: m.values[0].bits()->0, time_ns: at },
                ),
                ..s
            },
        )
    } else if is_coordinate(m) {
        let value = m.values[0].bits()->0;
        if !bits::from_zero_to(value, ONE) {
            Ok(Track { fields: s.fields.remove(m.address), ..s })
        } else {
            let fields = s.fields.insert(m.address, Field { value, time_ns: at });
            if is_head(m.address) {
                Ok(Track { fields, last_signal_ns: at, ..s })
            } else {
                Ok(Track { fields, mouth_signal_ns: at, ..s })
            }
        }
    } else {
        Ok(s)
    }
}

/// What has to be computed outside for a message.
pub open spec fn asked(s: Track, m: Signal, snapshot: bool, request_start: i64) -> Ask {
    if m.address == "/avatar/change"@ && !snapshot {
        Ask::Nothing
    } else if snapshot && outdated(s, m.address, request_start) {
        Ask::Nothing
    } else if !snapshot && is_pose(m) {
        match numbers(m.values) {
            Err(_) => Ask::Nothing,
            Ok(list) => Ask::Rotation(list[3], list[4], list[5]),
        }
    } else if is_scale(m) && usable_scale(m.values[0]) && s.fields.contains_key(m.address) {
        Ask::Drift(s.fields[m.address].value, m.values[0].bits()->0)
    } else {
        Ask::Nothing
    }
}

fn pose_numbers(values: &Vec<Json>) -> (res: Result<Vec<u64>, PoseError>)
    ensures
        res matches Err(e) ==> numbers(osc::trees(values@)) == Err::<Seq<u64>, _>(e),
        res matches Ok(list) ==> numbers(osc::trees(values@)) == Ok::<_, PoseError>(list@)
            && list.len() == 6,
{
    let ghost all = osc::trees(values@);
    let mut list: Vec<u64> = Vec::new();
    let mut i: usize = 0;
    while i < values.len()
        invariant
            all == osc::trees(values@),
            i <= values.len(),
            list.len() == i,
            forall|k: int| 0 <= k < i ==> (#[trigger] all[k]).bits() == Some(list@[k]),
        decreases values.len() - i,
    {
        match values[i].bits() {
            Some(bits) => {
                list.push(bits);
            },
            None => {
                assert(all[i as int].bits() is None);
                return Err(PoseError::Number);
            },
        }
        i += 1;
    }
    if list.len() != 6 {
        return Err(PoseError::SixNumbers);
    }
    let mut i: usize = 0;
    while i < 6
        invariant
            all == osc::trees(values@),
            i <= 6,
            list.len() == 6,
            all.len() == 6,
            forall|k: int| 0 <= k < 6 ==> (#[trigger] all[k]).bits() == Some(list@[k]),
            forall|k: int| 0 <= k < i ==> bits::is_finite((#[trigger] all[k]).bits()->0),
        decreases 6 - i,
    {
        if !finite(list[i]) {
            assert(!bits::is_finite(all[i as int].bits()->0));
            return Err(PoseError::SixNumbers);
        }
        i += 1;
    }
    assert(list@ =~= Seq::new(6, |k: int| all[k].bits()->0));
    Ok(list)
}

fn blank_signs() -> (signs: Vec<Sign>)
    ensures
        signs@ == unknown_signs(),
{
    let mut signs: Vec<Sign> = Vec::new();
    while signs.len() < 9
        invariant
            signs.len() <= 9,
            forall|i: int| 0 <= i < signs.len() ==> signs@[i] == unknown_sign(),
        decreases 9 - signs.len(),
    {
        signs.push(
            Sign {
                contact: MINUS_ONE,
                near_at_ns: LONG_AGO,
                mismatch_at_ns: NEVER,
                inferred: false,
            },
        );
    }
    assert(signs@ =~= unknown_signs());
    signs
}

fn pose_message(m: &Message) -> (res: bool)
    ensures
        res == is_pose(m@),
{
    same(&m.typetag, ",ffffff") && (same(&m.address, "/usercamera/Pose") || same(
        &m.address,
        "/tracking/vrsystem/head/pose",
    ))
}

fn scale_message(m: &Message) -> (res: bool)
    ensures
        res == is_scale(m@),
{
    m.values.len() == 1 && same(&m.address, "/avatar/parameters/ScaleFactor") && same(
        &m.typetag,
        ",f",
    )
}

fn version_message(m: &Message) -> (res: bool)
    ensures
        res == is_version(m@),
{
    m.values.len() == 1 && m.values[0].signed().is_some() && same(
        &m.address,
        "/avatar/parameters/VBS/Ref/ProbeVersion",
    ) && same(&m.typetag, ",i")
}

fn coordinate_message(m: &Message) -> (res: bool)
    ensures
        res == is_coordinate(m@),
{
    m.values.len() == 1 && m.values[0].bits().is_some() && same(&m.typetag, ",f") && (starts_with(
        &m.address,
        "/avatar/parameters/VBS/Ref/head/",
    ) || starts_with(&m.address, "/avatar/parameters/VBS/Ref/mouth/"))
}

impl LivePose {
    /// There is a sign for each of nine axes.
    pub closed spec fn wf(&self) -> bool {
        self.fields.wf() && self.signs@.len() == 9
    }

    /// A pose that has seen nothing, with the mouth at an offset from the head.
    pub fn new(offset: Vec3, mode: &str) -> (res: Result<LivePose, PoseError>)
        ensures
            !offset.is_within_one() ==> res == Err::<LivePose, _>(PoseError::Offset),
            offset.is_within_one() && mode_named(mode@) is None ==> res == Err::<LivePose, _>(
                PoseError::Mode,
            ),
            offset.is_within_one() && mode_named(mode@) is Some ==> (res matches Ok(pose)
                && pose.wf() && pose@ == fresh(offset, mode_named(mode@)->0)),
    {
        if !offset.within_one() {
            return Err(PoseError::Offset);
        }
        match source_mode(mode) {
            None => Err(PoseError::Mode),
            Some(mode) => {
                let origin = Pose {
                    time_ns: 0,
                    position: Vec3 { x: 0, y: 0, z: 0 },
                    rotation: Quat { x: 0, y: 0, z: 0, w: ONE },
                };
                Ok(
                    LivePose {
                        fields: TextMap::new(),
                        signs: blank_signs(),
                        camera: origin,
                        hmd: origin,
                        camera_seen: false,
                        hmd_seen: false,
                        mouth_signal_ns: NEVER,
                        last_signal_ns: NEVER,
                        reset_at_ns: NEVER,
                        last_eval_ns: NEVER,
                        last_yaw: 0,
                        yaw_at_ns: LONG_AGO,
                        epoch: 0,
                        source_mode: mode,
                        mouth_offset_m: offset,
                        scale_changed_at_ns: None,
                        scale_invalid: false,
                    },
                )
            },
        }
    }

    fn is_outdated(&self, address: &str, request_start: i64) -> (res: bool)
        requires
            self.wf(),
        ensures
            res == outdated(self@, address@, request_start),
    {
        if self.reset_at_ns >= request_start {
            return true;
        }
        match self.fields.get(address) {
            Some(field) => field.time_ns >= request_start,
            None => false,
        }
    }

    /// What has to be computed outside before the message can be taken in.
    pub fn ask(&self, m: &Message, snapshot: bool, request_start: i64) -> (res: Ask)
        requires
            self.wf(),
        ensures
            res == asked(self@, m@, snapshot, request_start),
    {
        if !snapshot && same(&m.address, "/avatar/change") {
            return Ask::Nothing;
        }
        if snapshot && self.is_outdated(&m.address, request_start) {
            return Ask::Nothing;
        }
        if !snapshot && pose_message(m) {
            return match pose_numbers(&m.values) {
                Ok(list) => Ask::Rotation(list[3], list[4], list[5]),
                Err(_) => Ask::Nothing,
            };
        }
        if scale_message(m) {
            if let Some(value) = m.values[0].bits() {
                if 0 < value && value <= LARGEST_SCALE {
                    if let Some(field) = self.fields.get(&m.address) {
                        return Ask::Drift(field.value, value);
                    }
                }
            }
        }
        Ask::Nothing
    }

    fn change_avatar(&mut self, at: i64)
        requires
            old(self).wf(),
            old(self)@.epoch < u64::MAX,
        ensures
            final(self).wf(),
            final(self)@ == changed_avatar(old(self)@, at),
    {
        self.fields = TextMap::new();
        self.signs = blank_signs();
        self.camera_seen = false;
        self.hmd_seen = false;
        self.reset_at_ns = at;
        self.epoch = self.epoch + 1;
        self.last_signal_ns = NEVER;
        self.mouth_signal_ns = NEVER;
        self.yaw_at_ns = LONG_AGO;
        self.scale_changed_at_ns = None;
        self.scale_invalid = false;
    }

    fn put(&mut self, address: &str, value: u64, at: i64)
        requires
            old(self).wf(),
        ensures
            final(self).wf(),
            final(self)@ == (Track {
                fields: old(self)@.fields.insert(address@, Field { value, time_ns: at }),
                ..old(self)@
            }),
    {
        self.fields.insert(address.to_owned(), Field { value, time_ns: at });
    }

    fn rescale(&mut self, value: u64, at: i64, drift: bool)
        requires
            old(self).wf(),
        ensures
            final(self).wf(),
            final(self)@ == scaled(old(self)@, value, at, drift),
    {
        let known = self.fields.get("/avatar/parameters/ScaleFactor").is_some();
        if (known && drift) || self.scale_invalid || (!known && (value < NEARLY_ONE_LOW || value
            > NEARLY_ONE_HIGH)) {
            self.scale_changed_at_ns = Some(at);
            self.signs = blank_signs();
        }
        self.scale_invalid = false;
        self.put("/avatar/parameters/ScaleFactor", value, at);
    }

    /// Takes a message in. A snapshot is the answer to a request that was sent at
    /// `request_start`; `answer` is what `ask` asked for.
    pub fn feed(
        &mut self,
        m: &Message,
        at: i64,
        snapshot: bool,
        request_start: i64,
        answer: Answer,
    ) -> (res: Result<(), PoseError>)
        requires
            old(self).wf(),
            old(self)@.epoch < u64::MAX,
        ensures
            final(self).wf(),
            res matches Err(e) ==> fed(old(self)@, m@, at, snapshot, request_start, answer)
                == Err::<Track, _>(e) && final(self)@ == old(self)@,
            res is Ok ==> fed(old(self)@, m@, at, snapshot, request_start, answer) == Ok::<
                _,
                PoseError,
            >(final(self)@),
    {
        if !snapshot && same(&m.address, "/avatar/change") {
            self.change_avatar(at);
            return Ok(());
        }
        if snapshot && self.is_outdated(&m.address, request_start) {
            return Ok(());
        }
        if !snapshot && pose_message(m) {
            let list = match pose_numbers(&m.values) {
                Ok(list) => list,
                Err(e) => {
                    return Err(e);
                },
            };
            let pose = Pose {
                time_ns: at,
                position: Vec3 { x: list[0], y: list[1], z: bits::negate(list[2]) },
                rotation: answer.rotation,
            };
            if same(&m.address, "/usercamera/Pose") {
                self.camera = pose;
                self.camera_seen = true;
            } else {
                self.hmd = pose;
                self.hmd_seen = true;
                self.last_signal_ns = at;
            }
            return Ok(());
        }
        if scale_message(m) {
            match m.values[0].bits() {
                Some(value) => if 0 < value && value <= LARGEST_SCALE {
                    self.rescale(value, at, answer.drift);
                } else {
                    self.scale_invalid = true;
                },
                None => {
                    self.scale_invalid = true;
                },
            }
            return Ok(());
        }
        if version_message(m) {
            if let Some(value) = m.values[0].bits() {
                self.put(&m.address, value, at);
            }
            return Ok(());
        }
        if coordinate_message(m) {
            if let Some(value) = m.values[0].bits() {
                if !fraction(value) {
                    self.fields.remove(&m.address);
                } else {
                    self.put(&m.address, value, at);
                    if starts_with(&m.address, "/avatar/parameters/VBS/Ref/head/") {
                        self.last_signal_ns = at;
                    } else {
                        self.mouth_signal_ns = at;
                    }
                }
            }
        }
        Ok(())
    }
}

/// The address of the magnitude of an axis: of the head's position, of its
/// direction, of the mouth's position.
pub open spec fn axis_name(i: int) -> Seq<char> {
    if i == 0 {
        "/avatar/parameters/VBS/Ref/head/p/x"@
    } else if i == 1 {
        "/avatar/parameters/VBS/Ref/head/p/y"@
    } else if i == 2 {
        "/avatar/parameters/VBS/Ref/head/p/z"@
    } else if i == 3 {
        "/avatar/parameters/VBS/Ref/head/r/x"@
    } else if i == 4 {
        "/avatar/parameters/VBS/Ref/head/r/y"@
    } else if i == 5 {
        "/avatar/parameters/VBS/Ref/head/r/z"@
    } else if i == 6 {
        "/avatar/parameters/VBS/Ref/mouth/p/x"@
    } else if i == 7 {
        "/avatar/parameters/VBS/Ref/mouth/p/y"@
    } else {
        "/avatar/parameters/VBS/Ref/mouth/p/z"@
    }
}

fn axis_address(i: usize) -> (res: &'static str)
    requires
        i < 9,
    ensures
        res@ == axis_name(i as int),
{
    if i == 0 {
        "/avatar/parameters/VBS/Ref/head/p/x"
    } else if i == 1 {
        "/avatar/parameters/VBS/Ref/head/p/y"
    } else if i == 2 {
        "/avatar/parameters/VBS/Ref/head/p/z"
    } else if i == 3 {
        "/avatar/parameters/VBS/Ref/head/r/x"
    } else if i == 4 {
        "/avatar/parameters/VBS/Ref/head/r/y"
    } else if i == 5 {
        "/avatar/parameters/VBS/Ref/head/r/z"
    } else if i == 6 {
        "/avatar/parameters/VBS/Ref/mouth/p/x"
    } else if i == 7 {
        "/avatar/parameters/VBS/Ref/mouth/p/y"
    } else {
        "/avatar/parameters/VBS/Ref/mouth/p/z"
    }
}

/// The magnitude and the sign contact of an axis, where both have come.
pub open spec fn axis_fields(fields: Map<Seq<char>, Field>, i: int) -> Option<(u64, u64)> {
    let name = axis_name(i);
    if fields.contains_key(name) && fields.contains_key(name + "+"@) {
        Some((fields[name].value, fields[name + "+"@].value))
    } else {
        None
    }
}

/// Two finite numbers are equal; zero has two bit patterns.
pub open spec fn equal(a: u64, b: u64) -> bool {
    a == b || (bits::magnitude(a) == 0 && bits::magnitude(b) == 0)
}

/// A number is greater than zero.
pub open spec fn is_positive(a: u64) -> bool {
    0 < a < SIGN
}

/// What was computed outside for an axis: whether it is near zero, and whether its
/// sign contact disagrees with its magnitude.
#[derive(Clone, Copy, PartialEq, Eq, Structural, Debug)]
pub struct Axis {
    pub near: bool,
    pub mismatch: bool,
}

/// The sign of an axis after a look at it. A disagreement that has lasted and that
/// began soon after the axis was near zero means that the sign has turned.
pub open spec fn observed(sign: Sign, positive: u64, axis: Axis, at: i64) -> Sign {
    let known = if equal(positive, sign.contact) {
        sign
    } else {
        Sign { contact: positive, ..unknown_sign() }
    };
    let near_at_ns = if axis.near {
        at
    } else {
        known.near_at_ns
    };
    if is_positive(positive) && axis.mismatch {
        let since = if known.mismatch_at_ns < 0 {
            at
        } else {
            known.mismatch_at_ns
        };
        Sign {
            near_at_ns,
            mismatch_at_ns: since,
            inferred: known.inferred || (at - since >= 150_000_000 && since - near_at_ns
                <= 500_000_000),
            ..known
        }
    } else {
        Sign { near_at_ns, mismatch_at_ns: NEVER, ..known }
    }
}

/// What a look at the pose came to.
#[derive(Clone, Copy, PartialEq, Eq, Structural, Debug)]
pub enum Reason {
    /// The avatar's scale is not a usable number.
    ScaleInvalid,
    /// The avatar has just changed its size.
    ScaleChanging,
    /// The probe is of an unknown version.
    Unsupported,
    /// The camera has not moved yet.
    CameraWait,
    /// Nothing has come from the mouth for too long.
    MouthWait,
    /// Nothing has come from the head for too long.
    HeadWait,
    /// Not all fields of the mouth have come.
    MouthStarting,
    /// Not all fields of the head have come.
    HeadStarting,
    /// The mouth is out of range.
    MouthRange,
    /// The head is out of range.
    HeadRange,
    /// The head faces nowhere.
    Facing,
    /// The mouth is known from its own probe.
    Mouth,
    /// The mouth is estimated from the head.
    Head,
}

/// The signs after a look at the first `n` axes from `base` on, and why the look
/// ended early if it did.
pub open spec fn looked(
    fields: Map<Seq<char>, Field>,
    signs: Seq<Sign>,
    base: int,
    n: nat,
    at: i64,
    axes: Seq<Axis>,
) -> (Seq<Sign>, Option<Reason>)
    decreases n,
{
    if n == 0 {
        (signs, None)
    } else {
        let (before, stop) = looked(fields, signs, base, (n - 1) as nat, at, axes);
        let i = base + n - 1;
        if stop is Some {
            (before, stop)
        } else {
            match axis_fields(fields, i) {
                None => (
                    before,
                    Some(
                        if base == 6 {
                            Reason::MouthStarting
                        } else {
                            Reason::HeadStarting
                        },
                    ),
                ),
                Some((magnitude, positive)) => if base != 3 && bits::magnitude(magnitude) == 0 {
                    (
                        before,
                        Some(
                            if base == 6 {
                                Reason::MouthRange
                            } else {
                                Reason::HeadRange
                            },
                        ),
                    )
                } else {
                    (before.update(i, observed(before[i], positive, axes[i], at)), None)
                },
            }
        }
    }
}

/// The version of the probe, or zero.
pub open spec fn probe_version(s: Track) -> u64 {
    let version = "/avatar/parameters/VBS/Ref/ProbeVersion"@;
    if s.fields.contains_key(version) {
        s.fields[version].value
    } else {
        0
    }
}

/// The mouth is taken from its own probe.
pub open spec fn is_direct(s: Track) -> bool {
    s.source_mode == SourceMode::MouthProbe || (s.source_mode == SourceMode::Auto && probe_version(
        s,
    ) == TWO)
}

/// Why nothing can be said before the axes are looked at.
pub open spec fn hindrance(s: Track, at: i64) -> Option<Reason> {
    if s.scale_invalid {
        Some(Reason::ScaleInvalid)
    } else if s.scale_changed_at_ns is Some && at - s.scale_changed_at_ns->0 < 100_000_000 {
        Some(Reason::ScaleChanging)
    } else if s.source_mode == SourceMode::Auto && bits::magnitude(probe_version(s)) != 0
        && probe_version(s) != TWO {
        Some(Reason::Unsupported)
    } else if !s.camera_seen {
        Some(Reason::CameraWait)
    } else if is_direct(s) {
        if s.mouth_signal_ns < 0 || at - s.mouth_signal_ns > 3_000_000_000 {
            Some(Reason::MouthWait)
        } else {
            None
        }
    } else if s.last_signal_ns < 0 || at - s.last_signal_ns > 1_000_000_000 {
        Some(Reason::HeadWait)
    } else {
        None
    }
}

/// The signs after a look at the pose, and what it came to.
pub open spec fn judged(s: Track, at: i64, axes: Seq<Axis>) -> (Seq<Sign>, Reason) {
    match hindrance(s, at) {
        Some(reason) => (s.signs, reason),
        None => if is_direct(s) {
            match looked(s.fields, s.signs, 6, 3, at, axes) {
                (signs, Some(reason)) => (signs, reason),
                (signs, None) => (signs, Reason::Mouth),
            }
        } else {
            match looked(s.fields, s.signs, 0, 3, at, axes) {
                (signs, Some(reason)) => (signs, reason),
                (signs, None) => match looked(s.fields, signs, 3, 3, at, axes) {
                    (signs, Some(reason)) => (signs, reason),
                    (signs, None) => (signs, Reason::Head),
                },
            }
        },
    }
}

/// The state after a look at the pose.
pub open spec fn evaluated(s: Track, at: i64, axes: Seq<Axis>) -> Track {
    Track { last_eval_ns: at, signs: judged(s, at, axes).0, ..s }
}

/// An axis points where its sign contact says, unless that has been overruled.
pub open spec fn towards(s: Track, i: int) -> bool {
    match axis_fields(s.fields, i) {
        Some((_, positive)) => is_positive(positive) && !s.signs[i].inferred,
        None => false,
    }
}

fn positive(a: u64) -> (res: bool)
    ensures
        res == is_positive(a),
{
    0 < a && a < SIGN
}

fn track(sign: Sign, contact: u64, axis: Axis, at: i64) -> (res: Sign)
    ensures
        res == observed(sign, contact, axis, at),
{
    let mut known = sign;
    if !(contact == sign.contact || (bits::abs(contact) == 0 && bits::abs(sign.contact) == 0)) {
        known = Sign {
            contact,
            near_at_ns: LONG_AGO,
            mismatch_at_ns: NEVER,
            inferred: false,
        };
    }
    if axis.near {
        known.near_at_ns = at;
    }
    if positive(contact) && axis.mismatch {
        if known.mismatch_at_ns < 0 {
            known.mismatch_at_ns = at;
        }
        if at as i128 - known.mismatch_at_ns as i128 >= 150_000_000 && known.mismatch_at_ns as i128
            - known.near_at_ns as i128 <= 500_000_000 {
            known.inferred = true;
        }
    } else {
        known.mismatch_at_ns = NEVER;
    }
    known
}

impl LivePose {
    /// The magnitude and the sign contact of an axis, where both have come.
    pub fn reading(&self, i: usize) -> (res: Option<(u64, u64)>)
        requires
            self.wf(),
            i < 9,
        ensures
            res == axis_fields(self@.fields, i as int),
    {
        let name = axis_address(i);
        let mut contact = name.to_owned();
        contact.append("+");
        match self.fields.get(name) {
            Some(magnitude) => match self.fields.get(&contact) {
                Some(positive) => Some((magnitude.value, positive.value)),
                None => None,
            },
            None => None,
        }
    }

    fn vector(&mut self, base: usize, at: i64, axes: &[Axis]) -> (stop: Option<Reason>)
        requires
            old(self).wf(),
            base == 0 || base == 3 || base == 6,
            axes.len() == 9,
        ensures
            final(self).wf(),
            (final(self)@.signs, stop) == looked(
                old(self)@.fields,
                old(self)@.signs,
                base as int,
                3,
                at,
                axes@,
            ),
            final(self)@ == (Track { signs: final(self)@.signs, ..old(self)@ }),
    {
        let ghost start = self@;
        let mut n: usize = 0;
        while n < 3
            invariant
                self.wf(),
                base == 0 || base == 3 || base == 6,
                axes.len() == 9,
                n <= 3,
                start == old(self)@,
                (self@.signs, None::<Reason>) == looked(
                    start.fields,
                    start.signs,
                    base as int,
                    n as nat,
                    at,
                    axes@,
                ),
                self@ == (Track { signs: self@.signs, ..start }),
            decreases 3 - n,
        {
            let i: usize = base + n;
            let stop: Option<Reason> = match self.reading(i) {
                None => Some(
                    if base == 6 {
                        Reason::MouthStarting
                    } else {
                        Reason::HeadStarting
                    },
                ),
                Some((magnitude, contact)) => if base != 3 && bits::abs(magnitude) == 0 {
                    Some(
                        if base == 6 {
                            Reason::MouthRange
                        } else {
                            Reason::HeadRange
                        },
                    )
                } else {
                    let sign = track(self.signs[i], contact, axes[i], at);
                    self.signs.set(i, sign);
                    None
                },
            };
            n += 1;
            if stop.is_some() {
                proof {
                    looks_stay_ended(start.fields, start.signs, base as int, n as nat, 3, at, axes@);
                }
                return stop;
            }
        }
        None
    }
}

proof fn looks_stay_ended(
    fields: Map<Seq<char>, Field>,
    signs: Seq<Sign>,
    base: int,
    n: nat,
    m: nat,
    at: i64,
    axes: Seq<Axis>,
)
    requires
        n <= m,
        looked(fields, signs, base, n, at, axes).1 is Some,
    ensures
        looked(fields, signs, base, m, at, axes) == looked(fields, signs, base, n, at, axes),
    decreases m,
{
    if n < m {
        looks_stay_ended(fields, signs, base, n, (m - 1) as nat, at, axes);
    }
}

/// Where the position of the mouth comes from.
#[derive(Clone, Copy, PartialEq, Eq, Structural, Debug)]
pub enum SourceModel {
    MouthProbe,
    HeadOffset,
    Unsupported,
}

/// How the orientation of the head was found.
#[derive(Clone, Copy, PartialEq, Eq, Structural, Debug)]
pub enum Orientation {
    Open,
    /// The position of the mouth needs none.
    MouthOnly,
    /// The head is taken to be upright.
    ZeroRoll,
    /// The head is rolled as the headset is.
    HeadsetUp,
}

/// What a look at the pose came to. Where it is valid, `towards` says of each axis
/// that was looked at whether it is positive, and `inferred` whether its sign
/// contact was overruled.
#[derive(Debug)]
pub struct PoseResult {
    pub valid: bool,
    pub reason: Reason,
    pub source_model: SourceModel,
    pub orientation: Orientation,
    pub towards: Vec<bool>,
    pub inferred: Vec<bool>,
}

pub open spec fn model_of(s: Track, reason: Reason) -> SourceModel {
    if reason == Reason::Unsupported {
        SourceModel::Unsupported
    } else if is_direct(s) {
        SourceModel::MouthProbe
    } else {
        SourceModel::HeadOffset
    }
}

/// Which axes a valid result rests on: from which on, and how many.
pub open spec fn axes_of(reason: Reason) -> (int, nat) {
    match reason {
        Reason::Mouth => (6, 3),
        Reason::Head => (0, 6),
        _ => (0, 0),
    }
}

/// What was computed outside of the direction that the head faces: whether it is
/// none, whether its pitch is that of the headset, the angle between both seen from
/// above where it can be told, and whether the headset's up can be told.
#[derive(Clone, Copy, PartialEq, Eq, Structural, Debug)]
pub struct Turn {
    pub faint: bool,
    pub level: bool,
    pub yaw: Option<u64>,
    pub hint: bool,
}

/// The state after the head's direction is known.
pub open spec fn turned(s: Track, at: i64, turn: Turn) -> Track {
    if !turn.faint && s.hmd_seen && at - s.hmd.time_ns <= 150_000_000 && turn.level && turn.yaw is Some {
        Track { last_yaw: turn.yaw->0, yaw_at_ns: at, ..s }
    } else {
        s
    }
}

/// How the orientation is found: the headset counts while it is fresh, it pitches as
/// the head does, and its angle to the head is fresh too.
pub open spec fn orientation_of(s: Track, at: i64, turn: Turn) -> Orientation {
    if turn.faint {
        Orientation::Open
    } else if s.hmd_seen && at - s.hmd.time_ns <= 150_000_000 && turn.level && at - turned(
        s,
        at,
        turn,
    ).yaw_at_ns <= 500_000_000 && turn.hint {
        Orientation::HeadsetUp
    } else {
        Orientation::ZeroRoll
    }
}

impl LivePose {
    fn version(&self) -> (res: u64)
        requires
            self.wf(),
        ensures
            res == probe_version(self@),
    {
        match self.fields.get("/avatar/parameters/VBS/Ref/ProbeVersion") {
            Some(field) => field.value,
            None => 0,
        }
    }

    fn direct(&self) -> (res: bool)
        requires
            self.wf(),
        ensures
            res == is_direct(self@),
    {
        match self.source_mode {
            SourceMode::MouthProbe => true,
            SourceMode::HeadOffset => false,
            SourceMode::Auto => self.version() == TWO,
        }
    }

    fn hindered(&self, at: i64) -> (res: Option<Reason>)
        requires
            self.wf(),
        ensures
            res == hindrance(self@, at),
    {
        if self.scale_invalid {
            return Some(Reason::ScaleInvalid);
        }
        if let Some(changed) = self.scale_changed_at_ns {
            if (at as i128) - (changed as i128) < 100_000_000 {
                return Some(Reason::ScaleChanging);
            }
        }
        let version: u64 = self.version();
        let auto = match self.source_mode {
            SourceMode::Auto => true,
            _ => false,
        };
        if auto && bits::abs(version) != 0 && version != TWO {
            return Some(Reason::Unsupported);
        }
        if !self.camera_seen {
            return Some(Reason::CameraWait);
        }
        if self.direct() {
            if self.mouth_signal_ns < 0 || at as i128 - self.mouth_signal_ns as i128
                > 3_000_000_000 {
                return Some(Reason::MouthWait);
            }
        } else if self.last_signal_ns < 0 || at as i128 - self.last_signal_ns as i128
            > 1_000_000_000 {
            return Some(Reason::HeadWait);
        }
        None
    }

    /// Looks at the pose at a time, with what was computed outside for each axis. A
    /// result that rests on the head still has to be oriented.
    pub fn at(&mut self, at: i64, axes: &[Axis]) -> (res: Result<PoseResult, PoseError>)
        requires
            old(self).wf(),
            axes.len() == 9,
        ensures
            final(self).wf(),
            at < old(self)@.last_eval_ns ==> res == Err::<PoseResult, _>(PoseError::Backwards)
                && final(self)@ == old(self)@,
            at >= old(self)@.last_eval_ns ==> final(self)@ == evaluated(old(self)@, at, axes@),
            at >= old(self)@.last_eval_ns ==> (res matches Ok(out) && ({
                let reason = judged(old(self)@, at, axes@).1;
                let (first, n) = axes_of(reason);
                &&& out.reason == reason
                &&& out.valid <==> reason == Reason::Mouth || reason == Reason::Head
                &&& out.source_model == model_of(old(self)@, reason)
                &&& out.orientation == (if reason == Reason::Mouth {
                    Orientation::MouthOnly
                } else {
                    Orientation::Open
                })
                &&& out.towards@ == Seq::new(n, |k: int| towards(final(self)@, first + k))
                &&& out.inferred@ == Seq::new(n, |k: int| final(self)@.signs[first + k].inferred)
            })),
    {
        if at < self.last_eval_ns {
            return Err(PoseError::Backwards);
        }
        let ghost start = self@;
        let direct = self.direct();
        let hindered = self.hindered(at);
        self.last_eval_ns = at;
        let reason: Reason = match hindered {
            Some(reason) => reason,
            None => if direct {
                match self.vector(6, at, axes) {
                    Some(reason) => reason,
                    None => Reason::Mouth,
                }
            } else {
                match self.vector(0, at, axes) {
                    Some(reason) => reason,
                    None => match self.vector(3, at, axes) {
                        Some(reason) => reason,
                        None => Reason::Head,
                    },
                }
            },
        };
        assert(self@ == evaluated(start, at, axes@));
        let source_model = match reason {
            Reason::Unsupported => SourceModel::Unsupported,
            _ => if direct {
                SourceModel::MouthProbe
            } else {
                SourceModel::HeadOffset
            },
        };
        let (valid, orientation, first, n): (bool, Orientation, usize, usize) = match reason {
            Reason::Mouth => (true, Orientation::MouthOnly, 6, 3),
            Reason::Head => (true, Orientation::Open, 0, 6),
            _ => (false, Orientation::Open, 0, 0),
        };
        let mut towards: Vec<bool> = Vec::new();
        let mut inferred: Vec<bool> = Vec::new();
        while towards.len() < n
            invariant
                self.wf(),
                first + n <= 9,
                towards.len() <= n,
                towards.len() == inferred.len(),
                forall|k: int|
                    0 <= k < towards.len() ==> #[trigger] towards@[k] == self::towards(
                        self@,
                        first + k,
                    ),
                forall|k: int|
                    0 <= k < inferred.len() ==> #[trigger] inferred@[k] == self@.signs[first
                        + k].inferred,
            decreases n - towards.len(),
        {
            let i: usize = first + towards.len();
            let overruled = self.signs[i].inferred;
            let up = match self.reading(i) {
                Some((_, contact)) => positive(contact) && !overruled,
                None => false,
            };
            towards.push(up);
            inferred.push(overruled);
        }
        assert(towards@ =~= Seq::new(n as nat, |k: int| self::towards(self@, first + k)));
        assert(inferred@ =~= Seq::new(n as nat, |k: int| self@.signs[first + k].inferred));
        Ok(PoseResult { valid, reason, source_model, orientation, towards, inferred })
    }

    /// Settles how the head is oriented, with what was computed outside of the
    /// direction it faces. Without a direction there is no valid result.
    pub fn orient(&mut self, at: i64, turn: Turn) -> (res: (Reason, Orientation))
        requires
            old(self).wf(),
        ensures
            final(self).wf(),
            final(self)@ == turned(old(self)@, at, turn),
            res.0 == facing(turn),
            res.1 == orientation_of(old(self)@, at, turn),
    {
        if turn.faint {
            return (Reason::Facing, Orientation::Open);
        }
        if self.hmd_seen && at as i128 - self.hmd.time_ns as i128 <= 150_000_000 && turn.level {
            if let Some(yaw) = turn.yaw {
                self.last_yaw = yaw;
                self.yaw_at_ns = at;
            }
            if at as i128 - self.yaw_at_ns as i128 <= 500_000_000 && turn.hint {
                return (Reason::Head, Orientation::HeadsetUp);
            }
        }
        (Reason::Head, Orientation::ZeroRoll)
    }
}

/// What is shown for a reason.
pub open spec fn reason_text(reason: Reason) -> Seq<char> {
    match reason {
        Reason::ScaleInvalid => "アバターの倍率データが不正です"@,
        Reason::ScaleChanging => "サイズ変更後の位置データを更新中"@,
        Reason::Unsupported => "未対応のプローブ版です"@,
        Reason::CameraWait => "カメラ待ち：撮影レンズ本体を一度動かしてください"@,
        Reason::MouthWait => "口元データ待ち：修正版プローブとOSCを確認"@,
        Reason::HeadWait => "頭部データ待ち：OSCと取得アドオンを確認"@,
        Reason::MouthStarting => "口元データの初期値を取得中"@,
        Reason::HeadStarting => "頭部データの初期値を取得中"@,
        Reason::MouthRange => "口元位置が取得範囲を超えました"@,
        Reason::HeadRange => "頭部位置が取得範囲を超えました"@,
        Reason::Facing => "頭の向きが取得できません"@,
        Reason::Mouth => "カメラ連動中（口元プローブ・検証版）"@,
        Reason::Head => "カメラ連動中（頭部から口元を推定）"@,
    }
}

impl Reason {
    /// What is shown for the reason.
    pub fn text(&self) -> (res: &'static str)
        ensures
            res@ == reason_text(*self),
    {
        match self {
            Reason::ScaleInvalid => "アバターの倍率データが不正です",
            Reason::ScaleChanging => "サイズ変更後の位置データを更新中",
            Reason::Unsupported => "未対応のプローブ版です",
            Reason::CameraWait => "カメラ待ち：撮影レンズ本体を一度動かしてください",
            Reason::MouthWait => "口元データ待ち：修正版プローブとOSCを確認",
            Reason::HeadWait => "頭部データ待ち：OSCと取得アドオンを確認",
            Reason::MouthStarting => "口元データの初期値を取得中",
            Reason::HeadStarting => "頭部データの初期値を取得中",
            Reason::MouthRange => "口元位置が取得範囲を超えました",
            Reason::HeadRange => "頭部位置が取得範囲を超えました",
            Reason::Facing => "頭の向きが取得できません",
            Reason::Mouth => "カメラ連動中（口元プローブ・検証版）",
            Reason::Head => "カメラ連動中（頭部から口元を推定）",
        }
    }
}

/// What is said of a head whose direction was computed.
pub open spec fn facing(turn: Turn) -> Reason {
    if turn.faint {
        Reason::Facing
    } else {
        Reason::Head
    }
}

/// The scale of the avatar, where it has come.
pub open spec fn scale_of(s: Track) -> Option<u64> {
    if s.fields.contains_key("/avatar/parameters/ScaleFactor"@) {
        Some(s.fields["/avatar/parameters/ScaleFactor"@].value)
    } else {
        None
    }
}

pub open spec fn model_name(model: SourceModel) -> Seq<char> {
    match model {
        SourceModel::MouthProbe => "avatar_mouth_probe"@,
        SourceModel::HeadOffset => "avatar_head_offset_estimated"@,
        SourceModel::Unsupported => "unsupported_probe"@,
    }
}

pub open spec fn orientation_name(orientation: Orientation) -> Seq<char> {
    match orientation {
        Orientation::Open => ""@,
        Orientation::MouthOnly => "mouth_position_only"@,
        Orientation::ZeroRoll => "zero_roll_fallback"@,
        Orientation::HeadsetUp => "hmd_up_aligned_estimate"@,
    }
}

impl SourceModel {
    pub fn name(&self) -> (res: &'static str)
        ensures
            res@ == model_name(*self),
    {
        match self {
            SourceModel::MouthProbe => "avatar_mouth_probe",
            SourceModel::HeadOffset => "avatar_head_offset_estimated",
            SourceModel::Unsupported => "unsupported_probe",
        }
    }
}

impl Orientation {
    pub fn name(&self) -> (res: &'static str)
        ensures
            res@ == orientation_name(*self),
    {
        match self {
            Orientation::Open => "",
            Orientation::MouthOnly => "mouth_position_only",
            Orientation::ZeroRoll => "zero_roll_fallback",
            Orientation::HeadsetUp => "hmd_up_aligned_estimate",
        }
    }
}

/// All of a live pose that is saved, apart from the mode and the offset, which a
/// restored pose keeps.
#[derive(Debug)]
pub struct Checkpoint {
    pub schema_version: u32,
    pub fields: Vec<(String, Field)>,
    pub signs: Vec<Sign>,
    pub camera: Pose,
    pub hmd: Pose,
    pub camera_seen: bool,
    pub hmd_seen: bool,
    pub mouth_signal_ns: i64,
    pub last_signal_ns: i64,
    pub reset_at_ns: i64,
    pub last_eval_ns: i64,
    pub last_yaw: u64,
    pub yaw_at_ns: i64,
    pub epoch: u64,
    pub scale_changed_at_ns: Option<i64>,
    pub scale_invalid: bool,
}

/// The fields in the first `n` places of a list; the later of two with one name
/// counts.
pub open spec fn listed(list: Seq<(String, Field)>, n: nat) -> Map<Seq<char>, Field>
    decreases n,
{
    if n == 0 {
        Map::empty()
    } else {
        listed(list, (n - 1) as nat).insert(list[n - 1].0@, list[n - 1].1)
    }
}

/// Every number in a checkpoint is finite.
pub open spec fn has_finite_numbers(c: Checkpoint) -> bool {
    let fields = listed(c.fields@, c.fields@.len());
    &&& forall|key: Seq<char>|
        fields.contains_key(key) ==> bits::is_finite((#[trigger] fields[key]).value)
    &&& forall|i: int|
        0 <= i < c.signs@.len() ==> bits::is_finite((#[trigger] c.signs@[i]).contact)
    &&& bits::is_finite(c.last_yaw)
}

/// The state that a checkpoint restores. The rotations of camera and headset come in
/// normalized; where one cannot be, it is missing.
pub open spec fn restored(s: Track, c: Checkpoint, camera: Option<Quat>, hmd: Option<Quat>) -> Result<
    Track,
    PoseError,
> {
    let fields = listed(c.fields@, c.fields@.len());
    if c.schema_version != 1 || fields.dom().len() > 256 || c.signs@.len() != 9 {
        Err(PoseError::Checkpoint)
    } else if !has_finite_numbers(c) {
        Err(PoseError::Nonfinite)
    } else if !c.camera.position.is_finite() {
        Err(PoseError::Position)
    } else if camera is None {
        Err(PoseError::Rotation)
    } else if !c.hmd.position.is_finite() {
        Err(PoseError::Position)
    } else if hmd is None {
        Err(PoseError::Rotation)
    } else {
        Ok(
            Track {
                fields,
                signs: c.signs@,
                camera: Pose { rotation: camera->0, ..c.camera },
                hmd: Pose { rotation: hmd->0, ..c.hmd },
                camera_seen: c.camera_seen,
                hmd_seen: c.hmd_seen,
                mouth_signal_ns: c.mouth_signal_ns,
                last_signal_ns: c.last_signal_ns,
                reset_at_ns: c.reset_at_ns,
                last_eval_ns: c.last_eval_ns,
                last_yaw: c.last_yaw,
                yaw_at_ns: c.yaw_at_ns,
                epoch: c.epoch,
                source_mode: s.source_mode,
                mouth_offset_m: s.mouth_offset_m,
                scale_changed_at_ns: c.scale_changed_at_ns,
                scale_invalid: c.scale_invalid,
            },
        )
    }
}

/// A checkpoint holds a state.
pub open spec fn holds(c: Checkpoint, s: Track) -> bool {
    &&& c.schema_version == 1
    &&& listed(c.fields@, c.fields@.len()) == s.fields
    &&& c.signs@ == s.signs
    &&& c.camera == s.camera
    &&& c.hmd == s.hmd
    &&& c.camera_seen == s.camera_seen
    &&& c.hmd_seen == s.hmd_seen
    &&& c.mouth_signal_ns == s.mouth_signal_ns
    &&& c.last_signal_ns == s.last_signal_ns
    &&& c.reset_at_ns == s.reset_at_ns
    &&& c.last_eval_ns == s.last_eval_ns
    &&& c.last_yaw == s.last_yaw
    &&& c.yaw_at_ns == s.yaw_at_ns
    &&& c.epoch == s.epoch
    &&& c.scale_changed_at_ns == s.scale_changed_at_ns
    &&& c.scale_invalid == s.scale_invalid
}

impl LivePose {
    /// The state as it is saved.
    pub fn checkpoint(&self) -> (c: Checkpoint)
        requires
            self.wf(),
        ensures
            holds(c, self@),
    {
        let mut list: Vec<(String, Field)> = Vec::new();
        let n: usize = self.fields.len();
        let ghost keys = self.fields.keys();
        proof {
            self.fields.keys_are_the_domain();
            assert(listed(list@, 0) =~= Map::<Seq<char>, Field>::empty());
        }
        while list.len() < n
            invariant
                self.wf(),
                keys == self.fields.keys(),
                n == keys.len(),
                list.len() <= n,
                forall|i: int|
                    0 <= i < list.len() ==> (#[trigger] list@[i]).0@ == keys[i]
                        && self.fields@.contains_key(keys[i]) && list@[i].1
                        == self.fields@[keys[i]],
            decreases n - list.len(),
        {
            let (key, field) = self.fields.entry(list.len());
            let item: (String, Field) = (key.as_str().to_owned(), *field);
            list.push(item);
        }
        proof {
            list_is_map(list@, self.fields@, keys, n as nat);
            assert(listed(list@, n as nat) =~= self.fields@) by {
                assert forall|key: Seq<char>| self.fields@.contains_key(key) implies listed(
                    list@,
                    n as nat,
                ).contains_key(key) by {
                    assert(keys.contains(key));
                    let i = choose|i: int| 0 <= i < keys.len() && keys[i] == key;
                    assert(keys[i] == key);
                }
            }
        }
        let mut signs: Vec<Sign> = Vec::new();
        while signs.len() < 9
            invariant
                self.wf(),
                signs.len() <= 9,
                forall|i: int| 0 <= i < signs.len() ==> signs@[i] == self@.signs[i],
            decreases 9 - signs.len(),
        {
            signs.push(self.signs[signs.len()]);
        }
        assert(signs@ =~= self@.signs);
        Checkpoint {
            schema_version: 1,
            fields: list,
            signs,
            camera: self.camera,
            hmd: self.hmd,
            camera_seen: self.camera_seen,
            hmd_seen: self.hmd_seen,
            mouth_signal_ns: self.mouth_signal_ns,
            last_signal_ns: self.last_signal_ns,
            reset_at_ns: self.reset_at_ns,
            last_eval_ns: self.last_eval_ns,
            last_yaw: self.last_yaw,
            yaw_at_ns: self.yaw_at_ns,
            epoch: self.epoch,
            scale_changed_at_ns: self.scale_changed_at_ns,
            scale_invalid: self.scale_invalid,
        }
    }

    /// Takes a saved state over, with the normalized rotations of camera and
    /// headset.
    pub fn restore(&mut self, c: Checkpoint, camera: Option<Quat>, hmd: Option<Quat>) -> (res: Result<
        (),
        PoseError,
    >)
        requires
            old(self).wf(),
        ensures
            final(self).wf(),
            res matches Err(e) ==> restored(old(self)@, c, camera, hmd) == Err::<Track, _>(e)
                && final(self)@ == old(self)@,
            res is Ok ==> restored(old(self)@, c, camera, hmd) == Ok::<_, PoseError>(final(self)@),
    {
        let mut fields: TextMap<Field> = TextMap::new();
        let mut i: usize = 0;
        while i < c.fields.len()
            invariant
                fields.wf(),
                i <= c.fields.len(),
                fields@ == listed(c.fields@, i as nat),
            decreases c.fields.len() - i,
        {
            let name = c.fields[i].0.as_str().to_owned();
            fields.insert(name, c.fields[i].1);
            i += 1;
        }
        if c.schema_version != 1 || fields.len() > 256 || c.signs.len() != 9 {
            return Err(PoseError::Checkpoint);
        }
        let n: usize = fields.len();
        proof {
            fields.keys_are_the_domain();
        }
        let mut i: usize = 0;
        while i < n
            invariant
                fields.wf(),
                n == fields.keys().len(),
                fields@ == listed(c.fields@, c.fields@.len()),
                i <= n,
                forall|k: int|
                    0 <= k < i ==> bits::is_finite(
                        fields@[#[trigger] fields.keys()[k]].value,
                    ),
                restored(old(self)@, c, camera, hmd) == restored(self@, c, camera, hmd),
                self@ == old(self)@,
                self.wf(),
                c.schema_version == 1,
                fields@.dom().len() <= 256,
                c.signs@.len() == 9,
            decreases n - i,
        {
            let (key, field) = fields.entry(i);
            if !finite(field.value) {
                return Err(PoseError::Nonfinite);
            }
            i += 1;
        }
        let mut i: usize = 0;
        while i < 9
            invariant
                fields@ == listed(c.fields@, c.fields@.len()),
                i <= 9,
                forall|k: int| 0 <= k < i ==> bits::is_finite((#[trigger] c.signs@[k]).contact),
                self@ == old(self)@,
                self.wf(),
                c.schema_version == 1,
                fields@.dom().len() <= 256,
                c.signs@.len() == 9,
            decreases 9 - i,
        {
            if !finite(c.signs[i].contact) {
                assert(!bits::is_finite(c.signs@[i as int].contact));
                return Err(PoseError::Nonfinite);
            }
            i += 1;
        }
        if !finite(c.last_yaw) {
            return Err(PoseError::Nonfinite);
        }
        proof {
            assert forall|key: Seq<char>| fields@.contains_key(key) implies bits::is_finite(
                (#[trigger] fields@[key]).value,
            ) by {
                assert(fields.keys().contains(key));
                let k = choose|k: int| 0 <= k < fields.keys().len() && fields.keys()[k] == key;
                assert(fields.keys()[k] == key);
            }
            assert(has_finite_numbers(c));
        }
        if !c.camera.position.finite() {
            return Err(PoseError::Position);
        }
        let camera_rotation = match camera {
            Some(q) => q,
            None => {
                return Err(PoseError::Rotation);
            },
        };
        if !c.hmd.position.finite() {
            return Err(PoseError::Position);
        }
        let hmd_rotation = match hmd {
            Some(q) => q,
            None => {
                return Err(PoseError::Rotation);
            },
        };
        self.fields = fields;
        self.signs = c.signs;
        self.camera = Pose { rotation: camera_rotation, ..c.camera };
        self.hmd = Pose { rotation: hmd_rotation, ..c.hmd };
        self.camera_seen = c.camera_seen;
        self.hmd_seen = c.hmd_seen;
        self.mouth_signal_ns = c.mouth_signal_ns;
        self.last_signal_ns = c.last_signal_ns;
        self.reset_at_ns = c.reset_at_ns;
        self.last_eval_ns = c.last_eval_ns;
        self.last_yaw = c.last_yaw;
        self.yaw_at_ns = c.yaw_at_ns;
        self.epoch = c.epoch;
        self.scale_changed_at_ns = c.scale_changed_at_ns;
        self.scale_invalid = c.scale_invalid;
        Ok(())
    }
}

proof fn list_is_map(
    list: Seq<(String, Field)>,
    map: Map<Seq<char>, Field>,
    keys: Seq<Seq<char>>,
    n: nat,
)
    requires
        n <= list.len(),
        list.len() == keys.len(),
        forall|i: int|
            0 <= i < list.len() ==> (#[trigger] list[i]).0@ == keys[i] && map.contains_key(keys[i])
                && list[i].1 == map[keys[i]],
    ensures
        forall|key: Seq<char>| #[trigger]
            listed(list, n).contains_key(key) ==> map.contains_key(key) && listed(list, n)[key]
                == map[key],
        forall|i: int| 0 <= i < n ==> listed(list, n).contains_key(#[trigger] keys[i]),
    decreases n,
{
    if n > 0 {
        list_is_map(list, map, keys, (n - 1) as nat);
        let last = list[n - 1];
        assert(last.0@ == keys[n - 1]);
        let before = listed(list, (n - 1) as nat);
        assert forall|key: Seq<char>| #[trigger] listed(list, n).contains_key(key) implies map.contains_key(
            key,
        ) && listed(list, n)[key] == map[key] by {
            if key != last.0@ {
                assert(before.contains_key(key));
            }
        }
    }
}

/// A checkpoint gives the state back: what a pose saved, another one that restores
/// it holds, with its own mode and offset and with the rotations normalized.
pub proof fn checkpoint_gives_the_state_back(
    saved: Track,
    other: Track,
    c: Checkpoint,
    camera: Option<Quat>,
    hmd: Option<Quat>,
)
    requires
        holds(c, saved),
        restored(other, c, camera, hmd) is Ok,
    ensures
        restored(other, c, camera, hmd)->Ok_0 == (Track {
            camera: Pose { rotation: camera->0, ..saved.camera },
            hmd: Pose { rotation: hmd->0, ..saved.hmd },
            source_mode: other.source_mode,
            mouth_offset_m: other.mouth_offset_m,
            ..saved
        }),
{
}

/// Nothing in a state is infinite or no number at all.
pub open spec fn is_sound(s: Track) -> bool {
    &&& s.signs.len() == 9
    &&& forall|key: Seq<char>|
        s.fields.contains_key(key) ==> bits::is_finite((#[trigger] s.fields[key]).value)
    &&& forall|i: int| 0 <= i < 9 ==> bits::is_finite((#[trigger] s.signs[i]).contact)
    &&& bits::is_finite(s.last_yaw)
    &&& s.camera.position.is_finite()
    &&& s.hmd.position.is_finite()
}

/// A new pose is sound.
pub proof fn new_poses_are_sound(offset: Vec3, mode: SourceMode)
    ensures
        is_sound(fresh(offset, mode)),
{
    assert(bits::is_finite(0u64));
}

/// A message whose numbers are finite leaves a sound state sound.
pub proof fn messages_keep_poses_sound(
    s: Track,
    m: Signal,
    at: i64,
    snapshot: bool,
    request_start: i64,
    answer: Answer,
)
    requires
        is_sound(s),
        osc::is_measured(m),
        fed(s, m, at, snapshot, request_start, answer) is Ok,
    ensures
        is_sound(fed(s, m, at, snapshot, request_start, answer)->Ok_0),
{
    let next = fed(s, m, at, snapshot, request_start, answer)->Ok_0;
    if m.values.len() > 0 {
        assert(m.values[0].bits() is Some ==> bits::is_finite(m.values[0].bits()->0));
    }
    if numbers(m.values) is Ok {
        assert(m.values[0].bits() is Some && m.values[1].bits() is Some && m.values[2].bits()
            is Some);
        assert(bits::is_finite(m.values[1].bits()->0));
        assert(bits::is_finite(m.values[2].bits()->0));
    }
    assert forall|key: Seq<char>| next.fields.contains_key(key) implies bits::is_finite(
        (#[trigger] next.fields[key]).value,
    ) by {
        if s.fields.contains_key(key) {
            assert(bits::is_finite(s.fields[key].value));
        }
    }
}

/// A look at a sound state leaves it sound, and so does the direction of the head where
/// its angle is finite.
pub proof fn looks_keep_poses_sound(s: Track, at: i64, axes: Seq<Axis>, turn: Turn)
    requires
        is_sound(s),
        axes.len() == 9,
        turn.yaw matches Some(yaw) ==> bits::is_finite(yaw),
    ensures
        is_sound(evaluated(s, at, axes)),
        is_sound(turned(s, at, turn)),
{
    contacts_stay_finite(s.fields, s.signs, 6, 3, at, axes);
    contacts_stay_finite(s.fields, s.signs, 0, 3, at, axes);
    let signs = looked(s.fields, s.signs, 0, 3, at, axes).0;
    contacts_stay_finite(s.fields, signs, 3, 3, at, axes);
}

proof fn contacts_stay_finite(
    fields: Map<Seq<char>, Field>,
    signs: Seq<Sign>,
    base: int,
    n: nat,
    at: i64,
    axes: Seq<Axis>,
)
    requires
        signs.len() == 9,
        0 <= base,
        base + n <= 9,
        forall|key: Seq<char>|
            fields.contains_key(key) ==> bits::is_finite((#[trigger] fields[key]).value),
        forall|i: int| 0 <= i < 9 ==> bits::is_finite((#[trigger] signs[i]).contact),
    ensures
        looked(fields, signs, base, n, at, axes).0.len() == 9,
        forall|i: int|
            0 <= i < 9 ==> bits::is_finite(
                (#[trigger] looked(fields, signs, base, n, at, axes).0[i]).contact,
            ),
    decreases n,
{
    if n > 0 {
        contacts_stay_finite(fields, signs, base, (n - 1) as nat, at, axes);
    }
}

/// A sound state is always restored from its checkpoint, as long as it has no more than
/// 256 fields and its rotations can be normalized. In the mode of the pose that saved it,
/// whatever is looked at later comes to the same.
pub proof fn sound_poses_are_restored(
    saved: Track,
    other: Track,
    c: Checkpoint,
    camera: Option<Quat>,
    hmd: Option<Quat>,
)
    requires
        is_sound(saved),
        holds(c, saved),
        saved.fields.dom().len() <= 256,
        camera is Some,
        hmd is Some,
    ensures
        restored(other, c, camera, hmd) is Ok,
        is_sound(restored(other, c, camera, hmd)->Ok_0),
        other.source_mode == saved.source_mode ==> {
            let back = restored(other, c, camera, hmd)->Ok_0;
            &&& forall|at: i64, axes: Seq<Axis>| #[trigger]
                judged(back, at, axes) == judged(saved, at, axes)
            &&& forall|at: i64, turn: Turn| #[trigger]
                orientation_of(back, at, turn) == orientation_of(saved, at, turn)
        },
{
    let fields = listed(c.fields@, c.fields@.len());
    assert forall|key: Seq<char>| fields.contains_key(key) implies bits::is_finite(
        (#[trigger] fields[key]).value,
    ) by {
        assert(bits::is_finite(saved.fields[key].value));
    }
    assert(has_finite_numbers(c));
}

proof fn names_differ()
    ensures
        "/avatar/change"@ != "/avatar/parameters/ScaleFactor"@,
        ",f"@ != ",i"@,
        ",f"@ != ",ffffff"@,
        !is_head("/avatar/parameters/ScaleFactor"@),
        !is_mouth("/avatar/parameters/ScaleFactor"@),
{
    reveal_strlit("/avatar/change");
    reveal_strlit("/avatar/parameters/ScaleFactor");
    reveal_strlit("/avatar/parameters/VBS/Ref/head/");
    reveal_strlit("/avatar/parameters/VBS/Ref/mouth/");
    reveal_strlit(",f");
    reveal_strlit(",i");
    reveal_strlit(",ffffff");
    assert("/avatar/change"@.len() == 14);
    assert("/avatar/parameters/ScaleFactor"@.len() == 30);
    assert("/avatar/parameters/VBS/Ref/head/"@.len() == 32);
    assert("/avatar/parameters/VBS/Ref/mouth/"@.len() == 33);
    assert(",f"@.len() == 2);
    assert(",ffffff"@.len() == 7);
    assert(",f"@[1] == 'f');
    assert(",i"@[1] == 'i');
}

/// A message sets the field at its address.
pub open spec fn sets_field(m: Signal) -> bool {
    ||| is_scale(m) && usable_scale(m.values[0])
    ||| is_version(m)
    ||| is_coordinate(m) && bits::from_zero_to(m.values[0].bits()->0, ONE)
}

/// An answer to a request cannot undo what has come since the request was sent:
/// neither a field that a live message has set, nor a change of the avatar.
pub proof fn snapshot_cannot_undo(
    s: Track,
    live: Signal,
    then: i64,
    a: Answer,
    old_answer: Signal,
    at: i64,
    request_start: i64,
    b: Answer,
)
    requires
        request_start <= then,
        live.address == "/avatar/change"@ || (sets_field(live) && !is_pose(live)
            && old_answer.address == live.address),
    ensures
        fed(s, live, then, false, 0, a) is Ok,
        fed(fed(s, live, then, false, 0, a)->Ok_0, old_answer, at, true, request_start, b) == Ok::<
            _,
            PoseError,
        >(fed(s, live, then, false, 0, a)->Ok_0),
{
    names_differ();
}

/// A change of the avatar forgets everything that was seen: whatever answer to an
/// earlier request comes, the position stays unknown until the camera is seen again.
pub proof fn avatar_change_forgets(
    s: Track,
    m: Signal,
    then: i64,
    a: Answer,
    at: i64,
    axes: Seq<Axis>,
)
    requires
        m.address == "/avatar/change"@,
    ensures
        fed(s, m, then, false, 0, a) == Ok::<_, PoseError>(changed_avatar(s, then)),
        judged(changed_avatar(s, then), at, axes).1 == Reason::CameraWait,
{
    let next = changed_avatar(s, then);
    assert(probe_version(next) == 0);
    assert(bits::magnitude(0u64) == 0);
}

/// A position is given only while it can be trusted: the camera has been seen, the
/// scale is usable and has been so for a tenth of a second, and the probe that the
/// position rests on has been heard within three seconds, or the head within one.
pub proof fn valid_positions_are_fresh(s: Track, at: i64, axes: Seq<Axis>)
    requires
        judged(s, at, axes).1 == Reason::Mouth || judged(s, at, axes).1 == Reason::Head,
    ensures
        s.camera_seen,
        !s.scale_invalid,
        s.scale_changed_at_ns is Some ==> at - s.scale_changed_at_ns->0 >= 100_000_000,
        judged(s, at, axes).1 == Reason::Mouth ==> is_direct(s) && 0 <= s.mouth_signal_ns && at
            - s.mouth_signal_ns <= 3_000_000_000,
        judged(s, at, axes).1 == Reason::Head ==> !is_direct(s) && 0 <= s.last_signal_ns && at
            - s.last_signal_ns <= 1_000_000_000,
{
    looks_end_before_the_result(s.fields, s.signs, 6, 3, at, axes);
    looks_end_before_the_result(s.fields, s.signs, 0, 3, at, axes);
    let signs = looked(s.fields, s.signs, 0, 3, at, axes).0;
    looks_end_before_the_result(s.fields, signs, 3, 3, at, axes);
}

proof fn looks_end_before_the_result(
    fields: Map<Seq<char>, Field>,
    signs: Seq<Sign>,
    base: int,
    n: nat,
    at: i64,
    axes: Seq<Axis>,
)
    ensures
        looked(fields, signs, base, n, at, axes).1 matches Some(reason) ==> reason != Reason::Mouth
            && reason != Reason::Head,
    decreases n,
{
    if n > 0 {
        looks_end_before_the_result(fields, signs, base, (n - 1) as nat, at, axes);
    }
}

/// After the avatar has changed its size no position is given for a tenth of a
/// second, and all that was inferred about signs is forgotten. An unusable size
/// gives none until a usable one comes.
pub proof fn size_change_interrupts(s: Track, m: Signal, then: i64, a: Answer, at: i64, axes: Seq<Axis>)
    requires
        is_scale(m),
        at - then < 100_000_000,
    ensures
        fed(s, m, then, false, 0, a) is Ok,
        usable_scale(m.values[0]) && s.fields.contains_key(m.address) && a.drift ==> ({
            let next = fed(s, m, then, false, 0, a)->Ok_0;
            judged(next, at, axes).1 == Reason::ScaleChanging && next.signs == unknown_signs()
        }),
        !usable_scale(m.values[0]) ==> judged(
            fed(s, m, then, false, 0, a)->Ok_0,
            at,
            axes,
        ).1 == Reason::ScaleInvalid,
{
    names_differ();
}

/// Looks keep the time, and one look at the signs of the axes changes no others.
pub proof fn looks_keep_the_rest(s: Track, at: i64, axes: Seq<Axis>)
    requires
        s.signs.len() == 9,
        axes.len() == 9,
    ensures
        evaluated(s, at, axes).last_eval_ns == at,
        evaluated(s, at, axes).signs.len() == 9,
        evaluated(s, at, axes).fields == s.fields,
        is_direct(s) ==> forall|i: int|
            0 <= i < 6 ==> #[trigger] evaluated(s, at, axes).signs[i] == s.signs[i],
        !is_direct(s) ==> forall|i: int|
            6 <= i < 9 ==> #[trigger] evaluated(s, at, axes).signs[i] == s.signs[i],
{
    looks_keep_other_axes(s.fields, s.signs, 6, 3, at, axes);
    looks_keep_other_axes(s.fields, s.signs, 0, 3, at, axes);
    let signs = looked(s.fields, s.signs, 0, 3, at, axes).0;
    looks_keep_other_axes(s.fields, signs, 3, 3, at, axes);
}

proof fn looks_keep_other_axes(
    fields: Map<Seq<char>, Field>,
    signs: Seq<Sign>,
    base: int,
    n: nat,
    at: i64,
    axes: Seq<Axis>,
)
    requires
        signs.len() == 9,
        0 <= base,
        base + n <= 9,
    ensures
        looked(fields, signs, base, n, at, axes).0.len() == 9,
        forall|i: int|
            0 <= i < 9 && (i < base || i >= base + n) ==> #[trigger] looked(
                fields,
                signs,
                base,
                n,
                at,
                axes,
            ).0[i] == signs[i],
    decreases n,
{
    if n > 0 {
        looks_keep_other_axes(fields, signs, base, (n - 1) as nat, at, axes);
    }
}

impl LivePose {
    /// The camera as it was last seen.
    pub fn camera(&self) -> (res: Pose)
        ensures
            res == self@.camera,
    {
        self.camera
    }

    /// The headset as it was last seen.
    pub fn hmd(&self) -> (res: Pose)
        ensures
            res == self@.hmd,
    {
        self.hmd
    }

    /// The angle between the headset and the head, seen from above.
    pub fn last_yaw(&self) -> (res: u64)
        ensures
            res == self@.last_yaw,
    {
        self.last_yaw
    }

    /// How often the avatar has changed.
    pub fn epoch(&self) -> (res: u64)
        ensures
            res == self@.epoch,
    {
        self.epoch
    }

    pub fn mode(&self) -> (res: SourceMode)
        ensures
            res == self@.source_mode,
    {
        self.source_mode
    }

    pub fn mouth_offset_m(&self) -> (res: Vec3)
        ensures
            res == self@.mouth_offset_m,
    {
        self.mouth_offset_m
    }

    /// When the mouth and the head were last heard.
    pub fn signals(&self) -> (res: (i64, i64))
        ensures
            res == (self@.mouth_signal_ns, self@.last_signal_ns),
    {
        (self.mouth_signal_ns, self.last_signal_ns)
    }

    /// The scale of the avatar, where it has come.
    pub fn probe_scale(&self) -> (res: Option<u64>)
        requires
            self.wf(),
        ensures
            res == scale_of(self@),
    {
        match self.fields.get("/avatar/parameters/ScaleFactor") {
            Some(field) => Some(field.value),
            None => None,
        }
    }

    /// The version of the probe, or zero.
    pub fn probe_version(&self) -> (res: u64)
        requires
            self.wf(),
        ensures
            res == probe_version(self@),
    {
        self.version()
    }
}

proof fn addresses_differ()
    ensures
        "/avatar/change"@ != "/usercamera/Pose"@,
        "/avatar/change"@ != "/tracking/vrsystem/head/pose"@,
        "/usercamera/Pose"@ != "/tracking/vrsystem/head/pose"@,
        "/avatar/change"@ != "/avatar/parameters/ScaleFactor"@,
        "/avatar/change"@ != "/avatar/parameters/VBS/Ref/ProbeVersion"@,
        "/avatar/parameters/VBS/Ref/ProbeVersion"@ != "/avatar/parameters/ScaleFactor"@,
        ",ffffff"@ != ",f"@,
        ",ffffff"@ != ",i"@,
        ",f"@ != ",i"@,
        !is_head("/avatar/change"@) && !is_mouth("/avatar/change"@),
        !is_head("/avatar/parameters/ScaleFactor"@),
        !is_mouth("/avatar/parameters/ScaleFactor"@),
        !is_head("/avatar/parameters/VBS/Ref/ProbeVersion"@),
        !is_mouth("/avatar/parameters/VBS/Ref/ProbeVersion"@),
        forall|address: Seq<char>| !(is_head(address) && #[trigger] is_mouth(address)),
{
    reveal_strlit("/avatar/change");
    reveal_strlit("/usercamera/Pose");
    reveal_strlit("/tracking/vrsystem/head/pose");
    reveal_strlit("/avatar/parameters/ScaleFactor");
    reveal_strlit("/avatar/parameters/VBS/Ref/ProbeVersion");
    reveal_strlit("/avatar/parameters/VBS/Ref/head/");
    reveal_strlit("/avatar/parameters/VBS/Ref/mouth/");
    reveal_strlit(",ffffff");
    reveal_strlit(",f");
    reveal_strlit(",i");
    let head = "/avatar/parameters/VBS/Ref/head/"@;
    let mouth = "/avatar/parameters/VBS/Ref/mouth/"@;
    let version = "/avatar/parameters/VBS/Ref/ProbeVersion"@;
    assert("/avatar/change"@.len() == 14);
    assert("/usercamera/Pose"@.len() == 16);
    assert("/tracking/vrsystem/head/pose"@.len() == 28);
    assert("/avatar/parameters/ScaleFactor"@.len() == 30);
    assert(version.len() == 39);
    assert(head.len() == 32 && head[27] == 'h');
    assert(mouth.len() == 33 && mouth[27] == 'm');
    assert(version[27] == 'P');
    assert(",f"@[1] == 'f' && ",i"@[1] == 'i');
    assert(",ffffff"@.len() == 7 && ",f"@.len() == 2 && ",i"@.len() == 2);
    assert(version.take(32)[27] == 'P');
    assert(version.take(33)[27] == 'P');
    assert forall|address: Seq<char>| !(is_head(address) && #[trigger] is_mouth(address)) by {
        if is_head(address) && is_mouth(address) {
            assert(address.take(32)[27] == 'h');
            assert(address.take(33)[27] == 'm');
        }
    }
}

/// A message of six finite numbers puts the camera or the headset, whichever its address
/// names, where its first three numbers say: the first is x, the second y, and z is the
/// third with the other sign. The last three are the angles that its rotation is asked
/// for, in their order. The other of the two, and all that the probes told, stay as they
/// were.
pub proof fn poses_stand_where_their_message_says(
    s: Track,
    m: Signal,
    at: i64,
    request_start: i64,
    a: Answer,
)
    requires
        m.address == "/usercamera/Pose"@ || m.address == "/tracking/vrsystem/head/pose"@,
        m.typetag == ",ffffff"@,
        m.values.len() == 6,
        forall|i: int| 0 <= i < 6 ==> (#[trigger] m.values[i]).bits() is Some,
        forall|i: int| 0 <= i < 6 ==> bits::is_finite((#[trigger] m.values[i]).bits()->0),
    ensures
        asked(s, m, false, request_start) == Ask::Rotation(
            m.values[3].bits()->0,
            m.values[4].bits()->0,
            m.values[5].bits()->0,
        ),
        fed(s, m, at, false, request_start, a) matches Ok(next) && {
            let camera = m.address == "/usercamera/Pose"@;
            let told = if camera {
                next.camera
            } else {
                next.hmd
            };
            let third = m.values[2].bits()->0;
            &&& m.values[0].bits() == Some(told.position.x)
            &&& m.values[1].bits() == Some(told.position.y)
            &&& told.position.z != third
            &&& bits::magnitude(told.position.z) == bits::magnitude(third)
            &&& told.time_ns == at
            &&& told.rotation == a.rotation
            &&& if camera {
                next == (Track { camera: told, camera_seen: true, ..s })
            } else {
                next == (Track { hmd: told, hmd_seen: true, last_signal_ns: at, ..s })
            }
        },
{
    addresses_differ();
}

/// A message that should tell where the camera or the headset is, and does not hold six
/// finite numbers, is an error, for the first reason that there is.
pub proof fn poses_without_six_numbers_are_errors(
    s: Track,
    m: Signal,
    at: i64,
    request_start: i64,
    a: Answer,
)
    requires
        m.address == "/usercamera/Pose"@ || m.address == "/tracking/vrsystem/head/pose"@,
        m.typetag == ",ffffff"@,
    ensures
        (exists|i: int| 0 <= i < m.values.len() && (#[trigger] m.values[i]).bits() is None) ==> fed(
            s,
            m,
            at,
            false,
            request_start,
            a,
        ) == Err::<Track, _>(PoseError::Number),
        (forall|i: int| 0 <= i < m.values.len() ==> (#[trigger] m.values[i]).bits() is Some) && (
        m.values.len() != 6 || exists|i: int|
            0 <= i < m.values.len() && !bits::is_finite((#[trigger] m.values[i]).bits()->0))
            ==> fed(s, m, at, false, request_start, a) == Err::<Track, _>(PoseError::SixNumbers),
{
    addresses_differ();
}

/// An answer to a request never moves the camera or the headset, changes the avatar, or
/// says when it changed: it only fills in what the probes tell.
pub proof fn answers_move_nothing(s: Track, m: Signal, at: i64, request_start: i64, a: Answer)
    requires
        fed(s, m, at, true, request_start, a) is Ok,
    ensures
        ({
            let next = fed(s, m, at, true, request_start, a)->Ok_0;
            &&& next.camera == s.camera
            &&& next.hmd == s.hmd
            &&& next.camera_seen == s.camera_seen
            &&& next.hmd_seen == s.hmd_seen
            &&& next.reset_at_ns == s.reset_at_ns
            &&& next.epoch == s.epoch
            &&& next.last_eval_ns == s.last_eval_ns
            &&& next.source_mode == s.source_mode
            &&& next.mouth_offset_m == s.mouth_offset_m
        }),
        s.reset_at_ns >= request_start ==> fed(s, m, at, true, request_start, a) == Ok::<
            _,
            PoseError,
        >(s),
        s.fields.contains_key(m.address) && s.fields[m.address].time_ns >= request_start ==> fed(
            s,
            m,
            at,
            true,
            request_start,
            a,
        ) == Ok::<_, PoseError>(s),
{
}

/// A coordinate of a probe that lies between zero and one is kept at its address with the
/// time at which it came, and that probe has been heard then. Any other number takes the
/// coordinate away. No other coordinate changes.
pub proof fn coordinates_are_kept(
    s: Track,
    m: Signal,
    at: i64,
    snapshot: bool,
    request_start: i64,
    a: Answer,
)
    requires
        crate::text::begins(m.address, "/avatar/parameters/VBS/Ref/head/"@) || crate::text::begins(
            m.address,
            "/avatar/parameters/VBS/Ref/mouth/"@,
        ),
        m.typetag == ",f"@,
        m.values.len() == 1,
        m.values[0].bits() is Some,
        snapshot ==> s.reset_at_ns < request_start && (s.fields.contains_key(m.address)
            ==> s.fields[m.address].time_ns < request_start),
    ensures
        fed(s, m, at, snapshot, request_start, a) matches Ok(next) && {
            let value = m.values[0].bits()->0;
            let head = crate::text::begins(m.address, "/avatar/parameters/VBS/Ref/head/"@);
            let fits = value <= 0x3ff0_0000_0000_0000 || value == 0x8000_0000_0000_0000;
            &&& fits ==> next.fields.contains_key(m.address) && next.fields[m.address].value
                == value && next.fields[m.address].time_ns == at
            &&& !fits ==> !next.fields.contains_key(m.address)
            &&& forall|other: Seq<char>|
                other != m.address ==> (next.fields.contains_key(other)
                    <==> #[trigger] s.fields.contains_key(other)) && next.fields[other]
                    == s.fields[other]
            &&& next.last_signal_ns == (if fits && head {
                at
            } else {
                s.last_signal_ns
            })
            &&& next.mouth_signal_ns == (if fits && !head {
                at
            } else {
                s.mouth_signal_ns
            })
            &&& next == (Track {
                fields: next.fields,
                last_signal_ns: next.last_signal_ns,
                mouth_signal_ns: next.mouth_signal_ns,
                ..s
            })
        },
{
    addresses_differ();
}

/// The version of the probe is the number that its message holds.
pub proof fn probe_version_is_what_was_told(
    s: Track,
    m: Signal,
    at: i64,
    request_start: i64,
    a: Answer,
)
    requires
        m.address == "/avatar/parameters/VBS/Ref/ProbeVersion"@,
        m.typetag == ",i"@,
        m.values.len() == 1,
        m.values[0].signed() is Some,
    ensures
        fed(s, m, at, false, request_start, a) matches Ok(next) && {
            &&& m.values[0].bits() == Some(probe_version(next))
            &&& next == (Track { fields: next.fields, ..s })
            &&& next.fields.remove(m.address) =~= s.fields.remove(m.address)
        },
{
    addresses_differ();
}

/// A positive scale whose thousandfold is finite is the scale from then on; any other
/// makes the scale unusable. The first scale, and one after an unusable one, counts as a
/// change of size unless it is one, as does one that differs from the one before.
pub proof fn scales_are_what_was_told(
    s: Track,
    m: Signal,
    at: i64,
    request_start: i64,
    a: Answer,
)
    requires
        m.address == "/avatar/parameters/ScaleFactor"@,
        m.typetag == ",f"@,
        m.values.len() == 1,
    ensures
        fed(s, m, at, false, request_start, a) matches Ok(next) && {
            let value = m.values[0].bits();
            let known = s.fields.contains_key(m.address);
            &&& next.scale_invalid <==> !(value is Some && 0 < value->0 <= 0x7f50_624d_d2f1_a9fb)
            &&& next.scale_invalid ==> next == (Track { scale_invalid: true, ..s })
            &&& !next.scale_invalid ==> {
                let resized = s.scale_invalid || if known {
                    a.drift
                } else {
                    value->0 < 0x3fef_fffd_e721_0bea || value->0 > 0x3ff0_0001_0c6f_7a0b
                };
                &&& next.fields == s.fields.insert(
                    m.address,
                    Field { value: value->0, time_ns: at },
                )
                &&& next.scale_changed_at_ns == (if resized {
                    Some(at)
                } else {
                    s.scale_changed_at_ns
                })
                &&& !resized ==> next.signs == s.signs
                &&& resized ==> forall|i: int|
                    0 <= i < 9 ==> !(#[trigger] next.signs[i]).inferred
                &&& next.camera == s.camera
                &&& next.hmd == s.hmd
                &&& next.epoch == s.epoch
                &&& next.last_signal_ns == s.last_signal_ns
                &&& next.mouth_signal_ns == s.mouth_signal_ns
            }
            &&& value is Some && known && 0 < value->0 <= 0x7f50_624d_d2f1_a9fb ==> asked(
                s,
                m,
                false,
                request_start,
            ) == Ask::Drift(s.fields[m.address].value, value->0)
        },
{
    addresses_differ();
}

/// A message that neither moves the camera or the headset nor comes from the avatar's
/// probes, its scale or its change, changes nothing.
pub proof fn other_messages_change_nothing(
    s: Track,
    m: Signal,
    at: i64,
    snapshot: bool,
    request_start: i64,
    a: Answer,
)
    requires
        m.address != "/avatar/change"@,
        m.address != "/usercamera/Pose"@,
        m.address != "/tracking/vrsystem/head/pose"@,
        m.address != "/avatar/parameters/ScaleFactor"@,
        m.address != "/avatar/parameters/VBS/Ref/ProbeVersion"@,
        !crate::text::begins(m.address, "/avatar/parameters/VBS/Ref/head/"@),
        !crate::text::begins(m.address, "/avatar/parameters/VBS/Ref/mouth/"@),
    ensures
        fed(s, m, at, snapshot, request_start, a) == Ok::<_, PoseError>(s),
        asked(s, m, snapshot, request_start) == Ask::Nothing,
{
}

/// An avatar change counts one up, and whatever the probes, the camera and the headset
/// had told is gone. The mode and the offset stay, and so does the time of the last look.
pub proof fn avatar_change_counts_up(s: Track, m: Signal, at: i64, request_start: i64, a: Answer)
    requires
        m.address == "/avatar/change"@,
        s.epoch < u64::MAX,
    ensures
        fed(s, m, at, false, request_start, a) matches Ok(next) && {
            &&& next.epoch == s.epoch + 1
            &&& next.reset_at_ns == at
            &&& next.fields.dom() =~= Set::empty()
            &&& !next.camera_seen && !next.hmd_seen
            &&& next.last_signal_ns == -1 && next.mouth_signal_ns == -1
            &&& next.scale_changed_at_ns is None && !next.scale_invalid
            &&& next.signs.len() == 9
            &&& forall|i: int|
                0 <= i < 9 ==> !(#[trigger] next.signs[i]).inferred && next.signs[i].contact
                    == 0xbff0_0000_0000_0000
            &&& next.source_mode == s.source_mode
            &&& next.mouth_offset_m == s.mouth_offset_m
            &&& next.last_eval_ns == s.last_eval_ns
            &&& next.last_yaw == s.last_yaw
        },
{
}

/// A new pose has its mode and its offset, and has seen nothing.
pub proof fn new_poses_know_nothing(offset: Vec3, mode: SourceMode)
    ensures
        ({
            let s = fresh(offset, mode);
            &&& s.mouth_offset_m == offset
            &&& s.source_mode == mode
            &&& s.fields.dom() =~= Set::empty()
            &&& !s.camera_seen && !s.hmd_seen && !s.scale_invalid
            &&& s.scale_changed_at_ns is None
            &&& s.epoch == 0
            &&& s.last_eval_ns == -1 && s.reset_at_ns == -1
            &&& s.last_signal_ns == -1 && s.mouth_signal_ns == -1
            &&& s.signs.len() == 9
            &&& forall|i: int| 0 <= i < 9 ==> !(#[trigger] s.signs[i]).inferred
        }),
        ({
            let p = origin();
            &&& p.time_ns == 0
            &&& p.position.x == 0 && p.position.y == 0 && p.position.z == 0
            &&& p.rotation.x == 0 && p.rotation.y == 0 && p.rotation.z == 0
            &&& p.rotation.w == 0x3ff0_0000_0000_0000
        }),
{
}

/// A mode is found by its own name alone.
pub proof fn modes_have_their_names(name: Seq<char>)
    ensures
        mode_named(name) == Some(SourceMode::Auto) <==> name == "auto"@,
        mode_named(name) == Some(SourceMode::HeadOffset) <==> name == "head_offset"@,
        mode_named(name) == Some(SourceMode::MouthProbe) <==> name == "mouth_probe"@,
{
    reveal_strlit("auto");
    reveal_strlit("head_offset");
    reveal_strlit("mouth_probe");
    assert("auto"@.len() == 4);
    assert("head_offset"@.len() == 11 && "head_offset"@[0] == 'h');
    assert("mouth_probe"@.len() == 11 && "mouth_probe"@[0] == 'm');
}

/// The address of an axis names its probe, whether it is a position or a direction, and
/// its letter.
pub proof fn axes_are_read_at_their_addresses(fields: Map<Seq<char>, Field>, i: int)
    requires
        0 <= i < 9,
    ensures
        ({
            let probe = if i < 6 {
                "head"@
            } else {
                "mouth"@
            };
            let kind = if 3 <= i < 6 {
                "/r/"@
            } else {
                "/p/"@
            };
            let letter = if i % 3 == 0 {
                'x'
            } else if i % 3 == 1 {
                'y'
            } else {
                'z'
            };
            let name = ("/avatar/parameters/VBS/Ref/"@ + probe + kind).push(letter);
            let contact = name.push('+');
            &&& axis_fields(fields, i) is Some <==> fields.contains_key(name)
                && fields.contains_key(contact)
            &&& axis_fields(fields, i) matches Some(f) ==> f.0 == fields[name].value && f.1
                == fields[contact].value
        }),
{
    reveal_strlit("/avatar/parameters/VBS/Ref/");
    reveal_strlit("head");
    reveal_strlit("mouth");
    reveal_strlit("/r/");
    reveal_strlit("/p/");
    reveal_strlit("+");
    reveal_strlit("/avatar/parameters/VBS/Ref/head/p/x");
    reveal_strlit("/avatar/parameters/VBS/Ref/head/p/y");
    reveal_strlit("/avatar/parameters/VBS/Ref/head/p/z");
    reveal_strlit("/avatar/parameters/VBS/Ref/head/r/x");
    reveal_strlit("/avatar/parameters/VBS/Ref/head/r/y");
    reveal_strlit("/avatar/parameters/VBS/Ref/head/r/z");
    reveal_strlit("/avatar/parameters/VBS/Ref/mouth/p/x");
    reveal_strlit("/avatar/parameters/VBS/Ref/mouth/p/y");
    reveal_strlit("/avatar/parameters/VBS/Ref/mouth/p/z");
    let root = "/avatar/parameters/VBS/Ref/"@;
    if i == 0 {
        assert(axis_name(i) =~= (root + "head"@ + "/p/"@).push('x'));
    } else if i == 1 {
        assert(axis_name(i) =~= (root + "head"@ + "/p/"@).push('y'));
    } else if i == 2 {
        assert(axis_name(i) =~= (root + "head"@ + "/p/"@).push('z'));
    } else if i == 3 {
        assert(axis_name(i) =~= (root + "head"@ + "/r/"@).push('x'));
    } else if i == 4 {
        assert(axis_name(i) =~= (root + "head"@ + "/r/"@).push('y'));
    } else if i == 5 {
        assert(axis_name(i) =~= (root + "head"@ + "/r/"@).push('z'));
    } else if i == 6 {
        assert(axis_name(i) =~= (root + "mouth"@ + "/p/"@).push('x'));
    } else if i == 7 {
        assert(axis_name(i) =~= (root + "mouth"@ + "/p/"@).push('y'));
    } else {
        assert(axis_name(i) =~= (root + "mouth"@ + "/p/"@).push('z'));
    }
    assert(axis_name(i) + "+"@ =~= axis_name(i).push('+'));
}

/// The sign of an axis is overruled only by a disagreement that has lasted for 150
/// milliseconds and began within half a second of the axis being near zero; and then it
/// is. An agreement ends the disagreement, and a new sign contact forgets it all.
pub proof fn signs_turn_after_lasting_disagreement(
    sign: Sign,
    positive: u64,
    near: bool,
    then: i64,
    now: i64,
    silent: u64,
)
    requires
        0 <= then,
        then + 150_000_000 <= now,
        0 < positive < 0x8000_0000_0000_0000,
    ensures
        // It begins at a look and has lasted at a later one.
        sign.mismatch_at_ns < 0 ==> ({
            let first = observed(sign, positive, Axis { near, mismatch: true }, then);
            let later = observed(first, positive, Axis { near: false, mismatch: true }, now);
            &&& first.mismatch_at_ns == then
            &&& first.contact == positive || (sign.contact == first.contact && equal(
                positive,
                sign.contact,
            ))
            &&& near ==> later.inferred
            &&& !near && sign.contact == positive && !sign.inferred && then - sign.near_at_ns
                > 500_000_000 ==> !later.inferred
        }),
        // One look is not enough, and an agreement does not overrule.
        sign.contact == positive && !sign.inferred && sign.mismatch_at_ns < 0 ==> !observed(
            sign,
            positive,
            Axis { near, mismatch: true },
            then,
        ).inferred,
        sign.contact == positive ==> ({
            let kept = observed(sign, positive, Axis { near, mismatch: false }, then);
            kept.inferred == sign.inferred && kept.mismatch_at_ns == -1
        }),
        // Another sign contact forgets what was inferred.
        silent != positive && bits::magnitude(silent) != bits::magnitude(positive) ==> !observed(
            Sign { contact: silent, ..sign },
            positive,
            Axis { near, mismatch: false },
            then,
        ).inferred,
{
}

/// An axis points the way of its sign contact unless that was overruled.
pub proof fn axes_point_where_their_contact_says(s: Track, i: int)
    ensures
        axis_fields(s.fields, i) matches Some(f) ==> (towards(s, i) <==> 0 < f.1
            < 0x8000_0000_0000_0000 && !s.signs[i].inferred),
        axis_fields(s.fields, i) is None ==> !towards(s, i),
{
}

/// Where the camera has been seen, the size is settled, and a probe is fresh and complete
/// and within its range, a position is told: of the mouth's own probe where that is asked
/// for or its version is two, else of the head.
pub proof fn fresh_probes_give_a_position(s: Track, at: i64, axes: Seq<Axis>, mouth: bool)
    requires
        !s.scale_invalid,
        s.scale_changed_at_ns matches Some(t) ==> at - t >= 100_000_000,
        s.camera_seen,
        mouth ==> s.source_mode == SourceMode::MouthProbe || (s.source_mode == SourceMode::Auto
            && probe_version(s) == 0x4000_0000_0000_0000),
        !mouth ==> s.source_mode == SourceMode::HeadOffset || (s.source_mode == SourceMode::Auto
            && probe_version(s) == 0),
        mouth ==> 0 <= s.mouth_signal_ns && at - s.mouth_signal_ns <= 3_000_000_000,
        !mouth ==> 0 <= s.last_signal_ns && at - s.last_signal_ns <= 1_000_000_000,
        forall|i: int|
            (if mouth {
                6 <= i < 9
            } else {
                0 <= i < 6
            }) ==> #[trigger] axis_fields(s.fields, i) is Some,
        forall|i: int|
            (if mouth {
                6 <= i < 9
            } else {
                0 <= i < 3
            }) ==> ((#[trigger] axis_fields(s.fields, i)) matches Some(f) && bits::magnitude(f.0) != 0),
    ensures
        judged(s, at, axes).1 == (if mouth {
            Reason::Mouth
        } else {
            Reason::Head
        }),
        model_of(s, judged(s, at, axes).1) == (if mouth {
            SourceModel::MouthProbe
        } else {
            SourceModel::HeadOffset
        }),
{
    reveal_with_fuel(looked, 4);
    if mouth {
        assert(axis_fields(s.fields, 6) is Some && axis_fields(s.fields, 7) is Some
            && axis_fields(s.fields, 8) is Some);
        assert(axis_fields(s.fields, 6) matches Some(f) && bits::magnitude(f.0) != 0);
        assert(axis_fields(s.fields, 7) matches Some(f) && bits::magnitude(f.0) != 0);
        assert(axis_fields(s.fields, 8) matches Some(f) && bits::magnitude(f.0) != 0);
    } else {
        assert(axis_fields(s.fields, 0) is Some && axis_fields(s.fields, 1) is Some
            && axis_fields(s.fields, 2) is Some && axis_fields(s.fields, 3) is Some
            && axis_fields(s.fields, 4) is Some && axis_fields(s.fields, 5) is Some);
        assert(axis_fields(s.fields, 0) matches Some(f) && bits::magnitude(f.0) != 0);
        assert(axis_fields(s.fields, 1) matches Some(f) && bits::magnitude(f.0) != 0);
        assert(axis_fields(s.fields, 2) matches Some(f) && bits::magnitude(f.0) != 0);
    }
    assert(bits::magnitude(0u64) == 0);
}

/// What stands against a position is told in the order of its weight: an unusable size, a
/// size that has just changed, a probe of another version, a camera that has not been
/// seen, and then a probe that has not been heard of late.
pub proof fn hindrances_have_their_order(s: Track, at: i64, axes: Seq<Axis>)
    ensures
        s.scale_invalid ==> judged(s, at, axes).1 == Reason::ScaleInvalid,
        !s.scale_invalid && (s.scale_changed_at_ns matches Some(t) && at - t < 100_000_000)
            ==> judged(s, at, axes).1 == Reason::ScaleChanging,
        ({
            let settled = !s.scale_invalid && (s.scale_changed_at_ns matches Some(t) ==> at - t
                >= 100_000_000);
            let other = s.source_mode == SourceMode::Auto && bits::magnitude(probe_version(s)) != 0
                && probe_version(s) != 0x4000_0000_0000_0000;
            let mouth = s.source_mode == SourceMode::MouthProbe || (s.source_mode
                == SourceMode::Auto && probe_version(s) == 0x4000_0000_0000_0000);
            &&& settled && other ==> judged(s, at, axes).1 == Reason::Unsupported && model_of(
                s,
                Reason::Unsupported,
            ) == SourceModel::Unsupported
            &&& settled && !other && !s.camera_seen ==> judged(s, at, axes).1 == Reason::CameraWait
            &&& settled && !other && s.camera_seen && mouth && (s.mouth_signal_ns < 0 || at
                - s.mouth_signal_ns > 3_000_000_000) ==> judged(s, at, axes).1 == Reason::MouthWait
            &&& settled && !other && s.camera_seen && !mouth && (s.last_signal_ns < 0 || at
                - s.last_signal_ns > 1_000_000_000) ==> judged(s, at, axes).1 == Reason::HeadWait
        }),
{
}

/// The headset tells which way is up only while it has been seen within 150 milliseconds,
/// it pitches as the head does, its up can be told, and the angle between both is known
/// from within half a second. The angle is kept when it can be told.
pub proof fn headset_counts_while_it_is_fresh(s: Track, at: i64, turn: Turn)
    ensures
        orientation_of(s, at, turn) == Orientation::HeadsetUp <==> {
            &&& !turn.faint && turn.level && turn.hint
            &&& s.hmd_seen && at - s.hmd.time_ns <= 150_000_000
            &&& turn.yaw is Some || at - s.yaw_at_ns <= 500_000_000
        },
        orientation_of(s, at, turn) == Orientation::Open <==> turn.faint,
        turned(s, at, turn).last_yaw == (if !turn.faint && turn.level && s.hmd_seen && at
            - s.hmd.time_ns <= 150_000_000 && turn.yaw is Some {
            turn.yaw->0
        } else {
            s.last_yaw
        }),
        turned(s, at, turn) == (Track {
            last_yaw: turned(s, at, turn).last_yaw,
            yaw_at_ns: turned(s, at, turn).yaw_at_ns,
            ..s
        }),
{
}

/// A checkpoint holds each part of a state under its own name.
pub proof fn checkpoints_name_what_they_hold(c: Checkpoint, s: Track, key: Seq<char>)
    requires
        holds(c, s),
    ensures
        c.schema_version == 1,
        c.camera == s.camera && c.camera_seen == s.camera_seen,
        c.hmd == s.hmd && c.hmd_seen == s.hmd_seen,
        c.mouth_signal_ns == s.mouth_signal_ns && c.last_signal_ns == s.last_signal_ns,
        c.reset_at_ns == s.reset_at_ns && c.last_eval_ns == s.last_eval_ns,
        c.last_yaw == s.last_yaw && c.yaw_at_ns == s.yaw_at_ns,
        c.epoch == s.epoch,
        c.scale_changed_at_ns == s.scale_changed_at_ns && c.scale_invalid == s.scale_invalid,
        c.signs@ == s.signs,
        s.fields.contains_key(key) ==> exists|i: int|
            0 <= i < c.fields@.len() && (#[trigger] c.fields@[i]).0@ == key && c.fields@[i].1
                == s.fields[key],
{
    if s.fields.contains_key(key) {
        listed_fields_are_in_the_list(c.fields@, c.fields@.len(), key);
    }
}

proof fn listed_fields_are_in_the_list(list: Seq<(String, Field)>, n: nat, key: Seq<char>)
    requires
        n <= list.len(),
        listed(list, n).contains_key(key),
    ensures
        exists|i: int|
            0 <= i < n && (#[trigger] list[i]).0@ == key && list[i].1 == listed(list, n)[key],
    decreases n,
{
    if n > 0 {
        if list[n - 1].0@ == key {
            assert(list[n - 1].1 == listed(list, n)[key]);
        } else {
            listed_fields_are_in_the_list(list, (n - 1) as nat, key);
        }
    }
}

/// What a result was made from, and how its head is oriented, have their names; a head whose
/// direction is too faint is not oriented at all.
pub proof fn results_have_their_names(turn: Turn)
    ensures
        model_name(SourceModel::MouthProbe) == "avatar_mouth_probe"@,
        model_name(SourceModel::HeadOffset) == "avatar_head_offset_estimated"@,
        model_name(SourceModel::Unsupported) == "unsupported_probe"@,
        orientation_name(Orientation::MouthOnly) == "mouth_position_only"@,
        orientation_name(Orientation::ZeroRoll) == "zero_roll_fallback"@,
        orientation_name(Orientation::HeadsetUp) == "hmd_up_aligned_estimate"@,
        orientation_name(Orientation::Open) == ""@,
        facing(turn) == Reason::Facing <==> turn.faint,
        facing(turn) == Reason::Head <==> !turn.faint,
{
}

/// The scale that is told is the last that came.
pub proof fn scales_are_told_as_they_came(s: Track)
    ensures
        !s.fields.contains_key("/avatar/parameters/ScaleFactor"@) ==> scale_of(s) is None,
        s.fields.contains_key("/avatar/parameters/ScaleFactor"@) ==> scale_of(s) == Some(
            s.fields["/avatar/parameters/ScaleFactor"@].value,
        ),
{
}

} // verus!
