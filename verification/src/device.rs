//! Audio devices: the formats they work in, the packets that a microphone hands over,
//! and the buffer of an output.
use crate::processor::AudioPacket;
use crate::wave;
use vstd::prelude::*;

verus! {

/// The format of a device as its driver describes it.
#[derive(Clone, Copy, PartialEq, Eq, Structural, Debug)]
pub struct Description {
    pub tag: u16,
    pub sample_rate_hz: u32,
    pub channels: u16,
    pub container_bits: u16,
    pub block_align: u16,
    /// The size of what is added to the description.
    pub extra: u16,
}

/// What may be added to the description.
#[derive(Clone, Copy, PartialEq, Eq, Structural, Debug)]
pub struct Extension {
    pub valid_bits: u16,
    pub channel_mask: u32,
    pub subformat: u128,
}

/// The format of a device.
#[derive(Clone, Copy, PartialEq, Eq, Structural, Debug)]
pub struct Format {
    pub sample_rate_hz: u32,
    pub channels: u16,
    pub container_bits: u16,
    pub valid_bits: u16,
    pub channel_mask: u32,
    pub float32: bool,
    pub block_align: u16,
}

/// The sub-format of samples that are floating-point numbers.
pub const FLOAT_SAMPLES: u128 = 0x0000_0003_0000_0010_8000_00aa_0038_9b71;

/// An extended description is followed by what it adds.
pub open spec fn is_extended(d: Description) -> bool {
    d.tag == 0xfffe && d.extra >= 22
}

/// The format that a description tells of.
pub open spec fn format_of(d: Description, e: Extension) -> Format {
    Format {
        sample_rate_hz: d.sample_rate_hz,
        channels: d.channels,
        container_bits: d.container_bits,
        valid_bits: if is_extended(d) {
            e.valid_bits
        } else {
            d.container_bits
        },
        channel_mask: if is_extended(d) {
            e.channel_mask
        } else {
            0
        },
        float32: if is_extended(d) {
            e.subformat == FLOAT_SAMPLES
        } else {
            d.tag == 3
        },
        block_align: d.block_align,
    }
}

impl Description {
    /// Whether the description is followed by what it adds.
    pub fn extended(&self) -> (res: bool)
        ensures
            res == is_extended(*self),
    {
        self.tag == 0xfffe && self.extra >= 22
    }

    /// The format that the description tells of. Of one that is not extended the
    /// extension counts for nothing.
    pub fn format(&self, extension: Extension) -> (f: Format)
        ensures
            f == format_of(*self, extension),
    {
        let extended = self.extended();
        Format {
            sample_rate_hz: self.sample_rate_hz,
            channels: self.channels,
            container_bits: self.container_bits,
            valid_bits: if extended {
                extension.valid_bits
            } else {
                self.container_bits
            },
            channel_mask: if extended {
                extension.channel_mask
            } else {
                0
            },
            float32: if extended {
                extension.subformat == FLOAT_SAMPLES
            } else {
                self.tag == 3
            },
            block_align: self.block_align,
        }
    }
}

/// A format that the stream works in: 48 kHz, single precision, packed; a microphone
/// has one channel or two, an output a left and a right.
pub open spec fn is_supported(f: Format, output: bool) -> bool {
    &&& f.sample_rate_hz == 48000
    &&& f.container_bits == 32
    &&& f.valid_bits == 32
    &&& f.float32
    &&& f.block_align == f.channels * 4
    &&& if output {
        f.channels == 2 && (f.channel_mask == 0 || f.channel_mask == 3)
    } else {
        f.channels == 1 || f.channels == 2
    }
}

impl Format {
    /// Whether the stream can work in the format.
    pub fn supported(&self, output: bool) -> (res: bool)
        ensures
            res == is_supported(*self, output),
    {
        self.sample_rate_hz == 48000 && self.container_bits == 32 && self.valid_bits == 32
            && self.float32 && self.block_align as u32 == self.channels as u32 * 4 && if output {
            self.channels == 2 && (self.channel_mask == 0 || self.channel_mask == 3)
        } else {
            self.channels == 1 || self.channels == 2
        }
    }

    /// What the samples are called.
    pub fn sample_format(&self) -> (res: &'static str)
        ensures
            res@ == (if self.float32 {
                "float32"@
            } else {
                "unsupported"@
            }),
    {
        if self.float32 {
            "float32"
        } else {
            "unsupported"
        }
    }
}

/// Why a device cannot be used.
#[derive(Clone, Copy, PartialEq, Eq, Structural, Debug)]
pub enum DeviceError {
    /// No device was chosen.
    Unchosen,
    /// It works the other way round.
    Direction,
    /// Its format is not supported.
    Format,
    /// Its buffer has an unexpected size.
    Buffer,
}

/// Whether a device can be used.
pub open spec fn verdict(
    endpoint: Seq<char>,
    output: bool,
    is_output: bool,
    format: Format,
) -> Result<(), DeviceError> {
    if endpoint.len() == 0 {
        Err(DeviceError::Unchosen)
    } else if output != is_output {
        Err(DeviceError::Direction)
    } else if !is_supported(format, output) {
        Err(DeviceError::Format)
    } else {
        Ok(())
    }
}

/// Whether a device can be used, by what was chosen, which way it works, and its
/// format.
pub fn usable(endpoint: &str, output: bool, is_output: bool, format: Format) -> (res: Result<
    (),
    DeviceError,
>)
    ensures
        res == verdict(endpoint@, output, is_output, format),
{
    if endpoint.unicode_len() == 0 {
        return Err(DeviceError::Unchosen);
    }
    if output != is_output {
        return Err(DeviceError::Direction);
    }
    if !format.supported(output) {
        return Err(DeviceError::Format);
    }
    Ok(())
}

/// Why a packet cannot be taken from a microphone.
#[derive(Clone, Copy, PartialEq, Eq, Structural, Debug)]
pub enum HandoverError {
    /// It is longer than ten seconds.
    TooLong,
    /// It has no audio, and does not say that it is silent.
    Missing,
    /// Its clock cannot be told in nanoseconds.
    Clock,
}

/// A packet as a microphone hands it over, without its samples.
#[derive(Clone, Copy, PartialEq, Eq, Structural, Debug)]
pub struct Handover {
    pub frames: u32,
    pub flags: u32,
    pub device: u64,
    /// The clock in hundreds of nanoseconds.
    pub qpc: u64,
}

/// The packet says that it is silent.
pub open spec fn is_silent(flags: u32) -> bool {
    flags / 2 % 2 == 1
}

/// The packets of one microphone, in the order in which they came.
#[derive(Clone, Copy, PartialEq, Eq, Structural, Debug)]
pub struct Microphone {
    pub channels: u16,
    /// The time of the session's beginning.
    pub origin: i64,
    /// The first frame of the next packet.
    pub first: u64,
}

/// What stands against a packet.
pub open spec fn handover_fault(h: Handover, audio: bool) -> Option<HandoverError> {
    if h.frames > 480000 {
        Some(HandoverError::TooLong)
    } else if !is_silent(h.flags) && !audio {
        Some(HandoverError::Missing)
    } else if h.qpc > i64::MAX / 100 {
        Some(HandoverError::Clock)
    } else {
        None
    }
}

/// What is made of a packet.
pub open spec fn is_packet(m: Microphone, h: Handover, audio: Seq<u8>, p: AudioPacket) -> bool {
    &&& p.samples@ == (if is_silent(h.flags) {
        Seq::new((h.frames * m.channels) as nat, |i: int| 0u32)
    } else {
        wave::samples_in(audio)
    })
    &&& p.samples@.len() == h.frames * m.channels
    &&& p.frames == h.frames
    &&& p.channels == m.channels
    &&& p.flags == h.flags
    &&& p.device == h.device
    &&& p.file == m.first
    &&& p.time == h.qpc * 100 - m.origin
}

/// The microphone after a packet.
pub open spec fn handed_over(m: Microphone, h: Handover) -> Microphone {
    Microphone { first: (m.first + h.frames) as u64, ..m }
}

impl Microphone {
    /// The frames can be counted on.
    pub open spec fn wf(self) -> bool {
        self.origin >= 0 && self.channels <= 2 && self.first <= u64::MAX - 480000
    }

    /// A packet of one or more frames is handed over. A silent one holds nothing but
    /// zeros, whatever its audio is. The one after it begins where it ends.
    pub fn hand_over(&mut self, h: Handover, audio: Option<&[u8]>) -> (res: Result<
        AudioPacket,
        HandoverError,
    >)
        requires
            old(self).wf(),
            h.frames > 0,
            audio matches Some(b) && b@.len() == h.frames * old(self).channels * 4 || audio is None,
        ensures
            handover_fault(h, audio is Some) matches Some(e) ==> res == Err::<AudioPacket, _>(e)
                && *final(self) == *old(self),
            handover_fault(h, audio is Some) is None ==> res is Ok && *final(self) == handed_over(
                *old(self),
                h,
            ),
            res matches Ok(p) ==> is_packet(
                *old(self),
                h,
                match audio {
                    Some(b) => b@,
                    None => Seq::empty(),
                },
                p,
            ),
    {
        if h.frames > 480000 {
            return Err(HandoverError::TooLong);
        }
        let silent = h.flags / 2 % 2 == 1;
        let mut samples: Vec<u32> = Vec::new();
        assert(h.frames * self.channels <= 960000) by (nonlinear_arith)
            requires
                h.frames <= 480000,
                self.channels <= 2,
        ;
        if silent {
            let count: usize = h.frames as usize * self.channels as usize;
            while samples.len() < count
                invariant
                    samples.len() <= count,
                    forall|k: int| 0 <= k < samples.len() ==> samples@[k] == 0,
                decreases count - samples.len(),
            {
                samples.push(0);
            }
            assert(samples@ =~= Seq::new((h.frames * self.channels) as nat, |i: int| 0u32));
        } else {
            match audio {
                Some(bytes) => {
                    samples = wave::samples(bytes);
                    assert(h.frames * self.channels * 4 / 4 == h.frames * self.channels);
                },
                None => {
                    return Err(HandoverError::Missing);
                },
            }
        }
        if h.qpc > 92_233_720_368_547_758 {
            return Err(HandoverError::Clock);
        }
        let packet = AudioPacket {
            samples,
            frames: h.frames,
            channels: self.channels as u32,
            flags: h.flags,
            device: h.device,
            file: self.first,
            time: h.qpc as i64 * 100 - self.origin,
        };
        self.first = self.first + h.frames as u64;
        Ok(packet)
    }
}

/// How long a microphone may hand over nothing.
pub const STALL_NS: i64 = 3_000_000_000;

/// When the last packet came.
pub open spec fn last_heard(last: i64, packets: usize, now: i64) -> i64 {
    if packets > 0 {
        now
    } else {
        last
    }
}

/// The last packet is not too long ago.
pub open spec fn is_alive(last: i64, now: i64) -> bool {
    now - last < STALL_NS
}

/// Whether a microphone still hands over its packets.
#[derive(Clone, Copy, PartialEq, Eq, Structural, Debug)]
pub struct Watch {
    pub last: i64,
}

impl Watch {
    /// Looks at the time after the packets that had come were taken; gives false when
    /// there has been none for three seconds.
    pub fn heard(&mut self, packets: usize, now: i64) -> (alive: bool)
        requires
            old(self).last >= 0,
            now >= old(self).last,
        ensures
            final(self).last == last_heard(old(self).last, packets, now),
            alive == is_alive(final(self).last, now),
    {
        if packets > 0 {
            self.last = now;
        }
        now - self.last < STALL_NS
    }
}

/// Why a microphone was left.
pub fn stop_reason(cancelled: bool) -> (res: &'static str)
    ensures
        res@ == (if cancelled {
            "cancelled"@
        } else {
            "duration_limit"@
        }),
{
    if cancelled {
        "cancelled"
    } else {
        "duration_limit"
    }
}

/// Why a block cannot be put into the buffer of an output.
#[derive(Clone, Copy, PartialEq, Eq, Structural, Debug)]
pub enum OutputError {
    /// More is waiting than the buffer holds.
    Padding,
    /// The block is no row of frames, or longer than the buffer.
    Block,
}

/// The buffer of an output.
#[derive(Clone, Copy, PartialEq, Eq, Structural, Debug)]
pub struct Output {
    pub capacity: u32,
}

/// How many frames fit where so many are waiting, and when the first of them will be
/// heard.
pub open spec fn room(o: Output, padding: u32, now: i64) -> Result<(u32, i64), OutputError> {
    if padding > o.capacity {
        Err(OutputError::Padding)
    } else {
        Ok(((o.capacity - padding) as u32, (now + padding * 1_000_000_000 / 48000) as i64))
    }
}

/// How many frames a block of so many samples has.
pub open spec fn frames_of(o: Output, samples: usize) -> Result<u32, OutputError> {
    if samples % 2 != 0 || samples / 2 > o.capacity {
        Err(OutputError::Block)
    } else {
        Ok((samples / 2) as u32)
    }
}

impl Output {
    pub open spec fn wf(self) -> bool {
        1 <= self.capacity <= 48000
    }

    /// A buffer holds up to a second.
    pub fn open(capacity: u32) -> (res: Result<Output, DeviceError>)
        ensures
            1 <= capacity <= 48000 ==> res == Ok::<_, DeviceError>(Output { capacity }),
            !(1 <= capacity <= 48000) ==> res == Err::<Output, _>(DeviceError::Buffer),
    {
        if capacity < 1 || capacity > 48000 {
            return Err(DeviceError::Buffer);
        }
        Ok(Output { capacity })
    }

    /// How many frames fit where so many are waiting, and when the first of them will
    /// be heard.
    pub fn wait(&self, padding: u32, now: i64) -> (res: Result<(u32, i64), OutputError>)
        requires
            self.wf(),
            now <= i64::MAX - 1_000_000_000,
        ensures
            res == room(*self, padding, now),
    {
        if padding > self.capacity {
            return Err(OutputError::Padding);
        }
        let delay: i64 = padding as i64 * 1_000_000_000 / 48000;
        Ok((self.capacity - padding, now + delay))
    }

    /// How many frames a block of so many samples has.
    pub fn write(&self, samples: usize) -> (res: Result<u32, OutputError>)
        ensures
            res == frames_of(*self, samples),
    {
        if samples % 2 != 0 || samples / 2 > self.capacity as usize {
            return Err(OutputError::Block);
        }
        Ok((samples / 2) as u32)
    }
}

/// A format is what the description says, and where the description is extended, what it
/// adds: the bits that count, the speakers, and whether samples are floats.
pub proof fn formats_are_as_described(d: Description, e: Extension)
    ensures
        ({
            let f = format_of(d, e);
            &&& f.sample_rate_hz == d.sample_rate_hz && f.channels == d.channels
            &&& f.container_bits == d.container_bits && f.block_align == d.block_align
            &&& d.tag == 0xfffe && d.extra >= 22 ==> f.valid_bits == e.valid_bits && f.channel_mask
                == e.channel_mask && (f.float32 <==> e.subformat
                == 0x0000_0003_0000_0010_8000_00aa_0038_9b71)
            &&& d.tag != 0xfffe || d.extra < 22 ==> f.valid_bits == d.container_bits
                && f.channel_mask == 0 && (f.float32 <==> d.tag == 3)
        }),
{
}

/// Devices work in packed floats of 32 bits at 48 kHz: microphones in one channel or two,
/// outputs in two, which are the left and the right one where it is said.
pub proof fn devices_work_in_floats(f: Format)
    ensures
        is_supported(f, true) ==> is_supported(f, false) && f.channels == 2 && f.block_align == 8,
        is_supported(f, true) && f.channel_mask != 0 ==> f.channel_mask == 3,
        is_supported(f, false) ==> f.sample_rate_hz == 48000 && f.container_bits == 32
            && f.valid_bits == 32 && f.float32 && 1 <= f.channels <= 2 && f.block_align == 4
            * f.channels,
        f == (Format {
            sample_rate_hz: 48000,
            channels: 1,
            container_bits: 32,
            valid_bits: 32,
            channel_mask: f.channel_mask,
            float32: true,
            block_align: 4,
        }) ==> is_supported(f, false),
        f == (Format {
            sample_rate_hz: 48000,
            channels: 2,
            container_bits: 32,
            valid_bits: 32,
            channel_mask: 3,
            float32: true,
            block_align: 8,
        }) ==> is_supported(f, true),
{
}

/// A device is used exactly where one was chosen, it works the right way round and its
/// format is supported; the first of these that fails is the reason.
pub proof fn devices_are_used_where_they_can_be(
    endpoint: Seq<char>,
    output: bool,
    is_output: bool,
    format: Format,
)
    ensures
        verdict(endpoint, output, is_output, format) is Ok <==> endpoint.len() > 0 && output
            == is_output && is_supported(format, is_output),
        endpoint.len() == 0 ==> verdict(endpoint, output, is_output, format) == Err::<(), _>(
            DeviceError::Unchosen,
        ),
        endpoint.len() > 0 && output != is_output ==> verdict(endpoint, output, is_output, format)
            == Err::<(), _>(DeviceError::Direction),
        verdict(endpoint, output, is_output, format) == Err::<(), _>(DeviceError::Format)
            ==> !is_supported(format, output),
{
}

/// A packet is refused where it is longer than ten seconds, has no audio without being
/// silent, or has a clock that cannot be told in nanoseconds; each for the first reason.
pub proof fn packets_are_handed_over_where_they_can_be(h: Handover, audio: bool)
    ensures
        handover_fault(h, audio) is None <==> h.frames <= 10 * 48000 && (audio || h.flags / 2 % 2
            == 1) && h.qpc * 100 <= i64::MAX,
        h.frames > 480000 ==> handover_fault(h, audio) == Some(HandoverError::TooLong),
        h.frames <= 480000 && !audio && h.flags / 2 % 2 == 0 ==> handover_fault(h, audio) == Some(
            HandoverError::Missing,
        ),
        handover_fault(h, audio) == Some(HandoverError::Clock) ==> h.qpc * 100 > i64::MAX,
{
}

/// A packet keeps what it was handed over with, at the time of its clock from the beginning
/// of the session on. A silent one is zeros; another has the samples that stand in its
/// audio. The next packet begins where it ends.
pub proof fn packets_are_what_was_handed_over(
    m: Microphone,
    h: Handover,
    audio: Seq<u8>,
    p: AudioPacket,
    next: Handover,
    more: Seq<u8>,
    q: AudioPacket,
    i: int,
)
    requires
        m.wf(),
        h.frames <= 480000,
        is_packet(m, h, audio, p),
        is_packet(handed_over(m, h), next, more, q),
        0 <= i < h.frames * m.channels,
        audio.len() == h.frames * m.channels * 4,
    ensures
        p.file == m.first,
        q.file == p.file + p.frames,
        p.time + m.origin == h.qpc * 100,
        q.time - p.time == (next.qpc - h.qpc) * 100,
        p.frames == h.frames && p.channels == m.channels && p.flags == h.flags && p.device
            == h.device,
        q.channels == p.channels,
        h.flags / 2 % 2 == 1 ==> p.samples@[i] == 0,
        h.flags / 2 % 2 == 0 ==> p.samples@[i] == audio[4 * i] + 256 * audio[4 * i + 1] + 65536
            * audio[4 * i + 2] + 16777216 * audio[4 * i + 3],
{
    wave::samples_stand_in_four_bytes(audio, i);
}

/// A microphone is given up exactly when it has handed over nothing for three seconds.
pub proof fn silent_microphones_are_given_up(last: i64, packets: usize, now: i64)
    requires
        0 <= last <= now,
    ensures
        packets > 0 ==> last_heard(last, packets, now) == now && is_alive(
            last_heard(last, packets, now),
            now,
        ),
        packets == 0 ==> last_heard(last, packets, now) == last,
        packets == 0 ==> (is_alive(last_heard(last, packets, now), now) <==> now < last
            + 3_000_000_000),
{
}

/// What waits in an output and what still fits make up its buffer; what is put into it is
/// heard once what waits has been played at 48 kHz.
pub proof fn outputs_play_what_waits_first(o: Output, padding: u32, now: i64)
    requires
        o.wf(),
        now <= i64::MAX - 1_000_000_000,
    ensures
        room(o, padding, now) is Ok <==> padding <= o.capacity,
        room(o, padding, now) matches Ok(r) ==> {
            &&& r.0 + padding == o.capacity
            &&& (r.1 - now) * 48000 <= padding * 1_000_000_000 < (r.1 - now + 1) * 48000
        },
{
}

/// A block for an output is frames of two samples, and no more of them than it holds.
pub proof fn outputs_take_whole_frames(o: Output, samples: usize)
    requires
        o.wf(),
    ensures
        frames_of(o, samples) matches Ok(n) ==> n + n == samples && n <= o.capacity,
        frames_of(o, samples) is Err ==> samples % 2 == 1 || samples > 2 * o.capacity,
{
}

} // verus!
