//! What is captured: how long, in which format, and the packets of a synthetic
//! source that stands in for a microphone.
use crate::bits;
use crate::bits::{DAY, SIGN};
use crate::processor::whole;
use vstd::prelude::*;

verus! {

/// Why nothing is captured.
#[derive(Clone, Copy, PartialEq, Eq, Structural, Debug)]
pub enum CaptureError {
    /// The duration is not between nothing and a day.
    Duration,
    /// The source fails, as it was told to.
    Injected,
}

/// Whether so many seconds can be captured; none means without end.
pub fn duration(seconds: u64) -> (res: Result<bool, CaptureError>)
    ensures
        bits::from_zero_to(seconds, DAY) ==> res == Ok::<_, CaptureError>(
            bits::magnitude(seconds) == 0,
        ),
        !bits::from_zero_to(seconds, DAY) ==> res == Err::<bool, _>(CaptureError::Duration),
{
    if !(seconds <= DAY || seconds == SIGN) {
        return Err(CaptureError::Duration);
    }
    Ok(bits::abs(seconds) == 0)
}

/// How many frames are captured: as many as the seconds give, or practically without
/// end, but no more than there are.
pub open spec fn frame_limit(endless: bool, frames: u64, available: Option<u64>) -> u64 {
    let wanted = if endless {
        0xfff_ffff_ffff_ffffu64
    } else {
        frames
    };
    match available {
        Some(n) => if n < wanted {
            n
        } else {
            wanted
        },
        None => wanted,
    }
}

/// How many frames are captured.
pub fn limit(endless: bool, frames: u64, available: Option<u64>) -> (res: u64)
    ensures
        res == frame_limit(endless, frames, available),
{
    let wanted: u64 = if endless {
        0xfff_ffff_ffff_ffff
    } else {
        frames
    };
    match available {
        Some(n) => if n < wanted {
            n
        } else {
            wanted
        },
        None => wanted,
    }
}

/// A synthetic source: when it started, how much later its audio counts, whether it
/// shows faults, and after how many frames it fails.
#[derive(Clone, Copy, PartialEq, Eq, Structural, Debug)]
pub struct Fixture {
    pub origin: i64,
    pub offset: i64,
    pub limit: u64,
    pub faults: bool,
    pub fail_after: Option<u64>,
    pub first: u64,
}

/// A packet that is due: how many frames it has, and when it comes.
#[derive(Clone, Copy, PartialEq, Eq, Structural, Debug)]
pub struct Due {
    pub count: u32,
    pub at: i64,
}

/// A packet without its samples.
#[derive(Clone, Copy, PartialEq, Eq, Structural, Debug)]
pub struct Stamp {
    pub first: u64,
    pub count: u32,
    pub flags: u32,
    pub device: u64,
    /// The clock in hundreds of nanoseconds.
    pub qpc: u64,
    pub time: i64,
}

/// How many frames the next packet has: ten milliseconds, or what is left.
pub open spec fn packet_frames(f: Fixture) -> int {
    if f.limit - f.first < 480 {
        f.limit - f.first
    } else {
        480
    }
}

/// When the next packet comes: when its last frame has been heard.
pub open spec fn due_time(f: Fixture) -> int {
    f.origin + f.offset + (f.first + packet_frames(f)) * 1_000_000_000 / 48000
}

/// The clock when the next packet began. Before the clock's own beginning it wraps
/// round, as an unsigned number does.
pub open spec fn began(f: Fixture) -> int {
    (whole(f.origin + f.offset, 100) + f.first * 10_000_000 / 48000) % 0x1_0000_0000_0000_0000
}

/// The time that a clock tells: what is beyond the signed numbers counts down from zero.
pub open spec fn told(qpc: int) -> int {
    if qpc > i64::MAX {
        qpc - 0x1_0000_0000_0000_0000
    } else {
        qpc
    }
}

/// The next packet. With faults, the second is silent, the third comes after a gap,
/// and the fourth has no time.
pub open spec fn stamp_of(f: Fixture) -> Stamp {
    let untimed = f.faults && f.first == 1440;
    let qpc = if untimed {
        0
    } else {
        began(f)
    };
    Stamp {
        first: f.first,
        count: packet_frames(f) as u32,
        flags: if !f.faults {
            0
        } else if f.first == 480 {
            2
        } else if f.first == 960 {
            1
        } else if f.first == 1440 {
            4
        } else {
            0
        },
        device: if f.faults && f.first >= 960 {
            (f.first + 480) as u64
        } else {
            f.first
        },
        qpc: qpc as u64,
        time: (told(qpc) * 100 - f.origin) as i64,
    }
}

impl Fixture {
    /// The times of the source can be told.
    pub open spec fn wf(self) -> bool {
        &&& self.first <= self.limit <= 0xfff_ffff_ffff_ffff
        &&& i64::MIN <= self.origin + self.offset <= i64::MAX
        &&& i64::MIN <= due_time(self) <= i64::MAX
        &&& i64::MIN <= told(began(self)) * 100 <= i64::MAX
        &&& i64::MIN <= told(began(self)) * 100 - self.origin <= i64::MAX
    }

    /// Whether the times of the source can be told.
    pub fn can_tell(&self) -> (res: bool)
        ensures
            res == self.wf(),
    {
        if self.first > self.limit || self.limit > 0xfff_ffff_ffff_ffff {
            return false;
        }
        let left: u64 = self.limit - self.first;
        let count: u64 = if left < 480 {
            left
        } else {
            480
        };
        let start: i128 = self.origin as i128 + self.offset as i128;
        let due: i128 = start + (self.first + count) as i128 * 1_000_000_000 / 48000;
        let passed: i128 = start / 100 + self.first as i128 * 10_000_000 / 48000;
        let told: i128 = if passed > i64::MAX as i128 {
            passed - 0x1_0000_0000_0000_0000
        } else {
            passed
        };
        let low: i128 = i64::MIN as i128;
        let high: i128 = i64::MAX as i128;
        low <= start && start <= high && low <= due && due <= high && low <= told * 100 && told
            * 100 <= high && low <= told * 100 - self.origin as i128 && told * 100
            - self.origin as i128 <= high
    }

    /// When the next packet comes, if there is one.
    pub fn next(&self) -> (res: Option<Due>)
        requires
            self.wf(),
        ensures
            res == (if self.first < self.limit {
                Some(Due { count: packet_frames(*self) as u32, at: due_time(*self) as i64 })
            } else {
                None
            }),
    {
        if self.first >= self.limit {
            return None;
        }
        let left: u64 = self.limit - self.first;
        let count: u32 = if left < 480 {
            left as u32
        } else {
            480
        };
        let heard: i128 = (self.first as u128 + count as u128) as i128 * 1_000_000_000 / 48000;
        let at: i128 = self.origin as i128 + self.offset as i128 + heard;
        Some(Due { count, at: at as i64 })
    }

    /// The next packet, unless the source fails.
    pub fn stamp(&self) -> (res: Result<Stamp, CaptureError>)
        requires
            self.wf(),
            self.first < self.limit,
        ensures
            self.fail_after is Some && self.first >= self.fail_after->0 ==> res == Err::<Stamp, _>(
                CaptureError::Injected,
            ),
            self.fail_after is None || self.first < self.fail_after->0 ==> res == Ok::<
                _,
                CaptureError,
            >(stamp_of(*self)),
    {
        if let Some(n) = self.fail_after {
            if self.first >= n {
                return Err(CaptureError::Injected);
            }
        }
        let left: u64 = self.limit - self.first;
        let count: u32 = if left < 480 {
            left as u32
        } else {
            480
        };
        let base: i128 = (self.origin as i128 + self.offset as i128) / 100;
        let whole_time: i128 = base + (self.first as i128 * 10_000_000 / 48000);
        let began: i128 = if whole_time < 0 {
            whole_time + 0x1_0000_0000_0000_0000
        } else {
            whole_time
        };
        let mut flags: u32 = 0;
        let mut device: u64 = self.first;
        let mut qpc: u64 = began as u64;
        if self.faults {
            if self.first == 480 {
                flags = 2;
            }
            if self.first >= 960 {
                device = self.first + 480;
            }
            if self.first == 960 {
                flags = 1;
            }
            if self.first == 1440 {
                flags = 4;
                qpc = 0;
            }
        }
        let told: i128 = if qpc > 0x7fff_ffff_ffff_ffff {
            qpc as i128 - 0x1_0000_0000_0000_0000
        } else {
            qpc as i128
        };
        let time: i64 = (told * 100 - self.origin as i128) as i64;
        Ok(Stamp { first: self.first, count, flags, device, qpc, time })
    }

    /// The packet has been taken.
    pub fn advance(&mut self, count: u32)
        requires
            old(self).first + count <= old(self).limit,
        ensures
            *final(self) == (Fixture { first: (old(self).first + count) as u64, ..*old(self) }),
    {
        self.first = self.first + count as u64;
    }

    /// Whether the source has come to its end.
    pub fn is_over(&self) -> (res: bool)
        ensures
            res == (self.first >= self.limit),
    {
        self.first >= self.limit
    }
}

/// The packets of a source follow each other without a break, none is empty, and none
/// goes beyond the limit.
pub proof fn fixture_packets_follow(f: Fixture)
    requires
        f.wf(),
        f.first < f.limit,
    ensures
        0 < packet_frames(f) <= 480,
        f.first + packet_frames(f) <= f.limit,
        f.first + 480 < f.limit ==> stamp_of(
            Fixture { first: (f.first + packet_frames(f)) as u64, ..f },
        ).first == f.first + packet_frames(f),
{
}

/// What is captured is no more than is wanted and no more than there is, and as much as both
/// allow.
pub proof fn captures_end_with_what_there_is(endless: bool, frames: u64, available: Option<u64>)
    ensures
        ({
            let n = frame_limit(endless, frames, available);
            &&& available is None ==> n == (if endless {
                0xfff_ffff_ffff_ffff
            } else {
                frames as int
            })
            &&& available matches Some(most) ==> n <= most
            &&& !endless ==> n <= frames
            &&& available matches Some(most) ==> (n == most || n == frame_limit(endless, frames, None))
        }),
{
}

/// A packet of a source is ten milliseconds or what is left, and comes when its last frame
/// has been heard at 48 kHz.
pub proof fn packets_come_when_they_are_heard(f: Fixture)
    requires
        f.wf(),
        f.first < f.limit,
    ensures
        f.limit - f.first >= 480 ==> packet_frames(f) == 480,
        f.limit - f.first < 480 ==> packet_frames(f) == f.limit - f.first,
        ({
            let heard = due_time(f) - f.origin - f.offset;
            heard * 48000 <= (f.first + packet_frames(f)) * 1_000_000_000 < (heard + 1) * 48000
        }),
{
}

/// A packet counts its frames from the source's first one, as its device does unless there
/// are faults: from the third packet on the device is one packet ahead. Only packets with
/// faults are flagged: the second is silent, the third comes after a gap, and the fourth has
/// no time.
pub proof fn packets_are_stamped_as_they_come(f: Fixture)
    requires
        f.wf(),
        f.first < f.limit,
    ensures
        ({
            let s = stamp_of(f);
            &&& s.first == f.first && s.count == packet_frames(f)
            &&& !f.faults ==> s.flags == 0 && s.device == f.first
            &&& f.faults && f.first < 960 ==> s.device == f.first
            &&& f.faults && f.first >= 960 ==> s.device == f.first + 480
            &&& f.faults ==> (s.flags == 2 <==> f.first == 480) && (s.flags == 1 <==> f.first == 960)
                && (s.flags == 4 <==> f.first == 1440) && (s.flags == 0 <==> f.first != 480 && f.first
                != 960 && f.first != 1440)
            &&& f.faults && f.first == 1440 ==> s.qpc == 0
        }),
{
}

/// The clock of a packet is that of its first frame, in hundreds of nanoseconds from the
/// source's start on; its time is that clock's, from the origin on.
pub proof fn clocks_tell_the_first_frame(f: Fixture)
    requires
        f.wf(),
        f.first < f.limit,
        f.origin + f.offset >= 0,
        !(f.faults && f.first == 1440),
        (f.origin + f.offset) / 100 + f.first * 10_000_000 / 48000 <= i64::MAX / 100,
    ensures
        ({
            let s = stamp_of(f);
            let passed = s.qpc - (f.origin + f.offset) / 100;
            &&& passed * 48000 <= f.first * 10_000_000 < (passed + 1) * 48000
            &&& s.time + f.origin == s.qpc * 100
        }),
{
}

} // verus!
