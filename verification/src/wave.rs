//! WAV files: 48 kHz, 32-bit float samples, carried as bit patterns, in RIFF form
//! or, from 4 GiB on, in RF64 form.
use vstd::prelude::*;
use vstd::slice::slice_subrange;

verus! {

/// Why a WAV file cannot be read or written.
#[derive(Clone, Copy, PartialEq, Eq, Structural, Debug)]
pub enum WaveError {
    /// The header of a file that large, or of that format, cannot be written.
    Size,
    /// The number of channels is not between 1 and 32.
    Channels,
    /// The samples do not make whole frames.
    Unaligned,
    /// The samples were not written.
    Unwritten,
    /// The frames to read are not all there, or are too many for one read.
    Range,
    /// The file does not begin as a RIFF or RF64 WAV file.
    Head,
    /// The file is not as long as its head says.
    Unsealed,
    /// The file ends inside the head of a chunk.
    TruncatedChunk,
    /// The length of the RF64 data comes before its size chunk.
    SizesMissing,
    /// A chunk is longer than the rest of the file.
    ChunkLength,
    /// The size chunk stands in a RIFF file, occurs twice or is too short.
    Sizes,
    /// The size chunk does not agree with the file.
    UnsealedSizes,
    /// The format chunk occurs twice, or is too short or too long.
    FormatChunk,
    /// The extended format is not that of floats.
    Subformat,
    /// The audio is not 48 kHz 32-bit float.
    Format,
    /// The data chunk occurs twice.
    DuplicateData,
    /// The format, the data or the sizes are missing, or the data is empty.
    Missing,
    /// The data does not make whole frames.
    UnalignedData,
    /// The number of frames is not the one in the size chunk.
    FrameCount,
}

/// The number that bytes hold, the least significant first.
pub open spec fn le_of(bytes: Seq<u8>) -> int
    decreases bytes.len(),
{
    if bytes.len() == 0 {
        0
    } else {
        bytes[0] + 256 * le_of(bytes.drop_first())
    }
}

/// The number in `n` bytes, the least significant first.
pub open spec fn le_bytes(v: int, n: nat) -> Seq<u8>
    decreases n,
{
    if n == 0 {
        Seq::empty()
    } else {
        seq![(v % 256) as u8] + le_bytes(v / 256, (n - 1) as nat)
    }
}

/// How many numbers `n` bytes can hold.
pub open spec fn radix(n: nat) -> int
    decreases n,
{
    if n == 0 {
        1
    } else {
        256 * radix((n - 1) as nat)
    }
}

pub proof fn le_of_is_bounded(bytes: Seq<u8>)
    ensures
        0 <= le_of(bytes) < radix(bytes.len()),
    decreases bytes.len(),
{
    if bytes.len() > 0 {
        le_of_is_bounded(bytes.drop_first());
    }
}

/// A number that fits comes back out of its bytes.
pub proof fn le_gives_back(v: int, n: nat)
    requires
        0 <= v < radix(n),
    ensures
        le_bytes(v, n).len() == n,
        le_of(le_bytes(v, n)) == v,
    decreases n,
{
    if n > 0 {
        le_gives_back(v / 256, (n - 1) as nat);
        assert(le_bytes(v, n).drop_first() =~= le_bytes(v / 256, (n - 1) as nat));
    }
}

/// The number that bytes hold, the least significant first.
pub fn le(bytes: &[u8]) -> (v: u64)
    requires
        bytes.len() <= 8,
    ensures
        v == le_of(bytes@),
{
    let mut v: u64 = 0;
    let mut i: usize = bytes.len();
    proof {
        reveal_with_fuel(radix, 9);
        assert(bytes@.skip(i as int) =~= Seq::<u8>::empty());
    }
    while i > 0
        invariant
            i <= bytes.len() <= 8,
            v == le_of(bytes@.skip(i as int)),
        decreases i,
    {
        i -= 1;
        proof {
            reveal_with_fuel(radix, 9);
            let rest = bytes@.skip(i as int);
            assert(rest.drop_first() =~= bytes@.skip(i + 1));
            le_of_is_bounded(rest);
        }
        v = v * 256 + bytes[i] as u64;
    }
    assert(bytes@.skip(0) =~= bytes@);
    v
}

/// Appends the low `n` bytes of a number, the least significant first.
fn put(out: &mut Vec<u8>, v: u64, n: usize)
    ensures
        final(out)@ == old(out)@ + le_bytes(v as int, n as nat),
{
    let mut rest: u64 = v;
    let mut i: usize = 0;
    let ghost start = out@;
    while i < n
        invariant
            i <= n,
            start + le_bytes(v as int, n as nat) == out@ + le_bytes(rest as int, (n - i) as nat),
        decreases n - i,
    {
        let ghost was = out@;
        let ghost tail = le_bytes(rest as int / 256, (n - i - 1) as nat);
        out.push((rest % 256) as u8);
        proof {
            assert(was + (seq![(rest % 256) as u8] + tail) =~= out@ + tail);
        }
        rest = rest / 256;
        i += 1;
    }
    assert(out@ + Seq::<u8>::empty() =~= out@);
}

/// The names of the chunks, and what a file begins with.
pub open spec fn riff_tag() -> Seq<u8> {
    seq![82, 73, 70, 70]
}

pub open spec fn rf64_tag() -> Seq<u8> {
    seq![82, 70, 54, 52]
}

pub open spec fn wave_tag() -> Seq<u8> {
    seq![87, 65, 86, 69]
}

pub open spec fn sizes_tag() -> Seq<u8> {
    seq![100, 115, 54, 52]
}

pub open spec fn junk_tag() -> Seq<u8> {
    seq![74, 85, 78, 75]
}

pub open spec fn format_tag() -> Seq<u8> {
    seq![102, 109, 116, 32]
}

pub open spec fn fact_tag() -> Seq<u8> {
    seq![102, 97, 99, 116]
}

pub open spec fn data_tag() -> Seq<u8> {
    seq![100, 97, 116, 97]
}

/// Whether a header can be written: frames have a size, the format is padded, and
/// the file does not outgrow a signed 64-bit offset.
pub open spec fn has_header(format: Seq<u8>, align: u16, frames: u64) -> bool {
    &&& align > 0
    &&& format.len() % 2 == 0
    &&& frames <= (i64::MAX - (76 + format.len())) / align as int
}

/// The size of the file behind its first eight bytes.
pub open spec fn riff_size(format: Seq<u8>, align: u16, frames: u64) -> int {
    frames * align + 68 + format.len()
}

/// A file that needs 64-bit sizes.
pub open spec fn is_wide(format: Seq<u8>, align: u16, frames: u64) -> bool {
    riff_size(format, align, frames) >= 0xffff_ffff
}

/// The first twelve bytes of a file and a chunk for its 64-bit sizes, which lies
/// unused in a smaller file.
pub open spec fn opening(format: Seq<u8>, align: u16, frames: u64) -> Seq<u8> {
    let riff = riff_size(format, align, frames);
    if is_wide(format, align, frames) {
        rf64_tag() + le_bytes(0xffff_ffff, 4) + wave_tag() + sizes_tag() + le_bytes(28, 4)
            + le_bytes(riff, 8) + le_bytes(frames * align, 8) + le_bytes(frames as int, 8)
            + le_bytes(0, 4)
    } else {
        riff_tag() + le_bytes(riff, 4) + wave_tag() + junk_tag() + le_bytes(28, 4) + le_bytes(0, 8)
            + le_bytes(0, 8) + le_bytes(0, 8) + le_bytes(0, 4)
    }
}

/// The format, the number of frames, and the head of the data.
pub open spec fn closing(format: Seq<u8>, align: u16, frames: u64) -> Seq<u8> {
    let wide = is_wide(format, align, frames);
    format_tag() + le_bytes(format.len() as int, 4) + format + fact_tag() + le_bytes(4, 4)
        + le_bytes(
        if wide {
            0xffff_ffff
        } else {
            frames as int
        },
        4,
    ) + data_tag() + le_bytes(
        if wide {
            0xffff_ffff
        } else {
            frames * align
        },
        4,
    )
}

/// All that stands before the data of a file.
pub open spec fn header_bytes(format: Seq<u8>, align: u16, frames: u64) -> Seq<u8> {
    opening(format, align, frames) + closing(format, align, frames)
}

/// The header of a file of `frames` frames of `align` bytes.
pub fn header(format: &[u8], align: u16, frames: u64) -> (res: Result<Vec<u8>, WaveError>)
    requires
        format.len() <= i64::MAX - 76,
    ensures
        has_header(format@, align, frames) ==> (res matches Ok(b) && b@ == header_bytes(
            format@,
            align,
            frames,
        )),
        !has_header(format@, align, frames) ==> res == Err::<Vec<u8>, _>(WaveError::Size),
{
    let head: u64 = 76 + format.len() as u64;
    if align == 0 || format.len() % 2 != 0 || frames > (0x7fff_ffff_ffff_ffff - head)
        / align as u64 {
        return Err(WaveError::Size);
    }
    proof {
        let room = i64::MAX - head;
        assert(frames * align <= room) by (nonlinear_arith)
            requires
                align > 0,
                frames <= room / align as int,
        ;
    }
    let bytes: u64 = frames * align as u64;
    let riff: u64 = bytes + head - 8;
    let wide = riff >= 0xffff_ffff;
    proof {
        assert(frames <= frames * align) by (nonlinear_arith)
            requires
                align > 0,
        ;
    }
    let mut b: Vec<u8> = Vec::new();
    if wide {
        b.extend_from_slice(&[82, 70, 54, 52]);
        put(&mut b, 0xffff_ffff, 4);
        b.extend_from_slice(&[87, 65, 86, 69]);
        b.extend_from_slice(&[100, 115, 54, 52]);
        put(&mut b, 28, 4);
        put(&mut b, riff, 8);
        put(&mut b, bytes, 8);
        put(&mut b, frames, 8);
        put(&mut b, 0, 4);
    } else {
        b.extend_from_slice(&[82, 73, 70, 70]);
        put(&mut b, riff, 4);
        b.extend_from_slice(&[87, 65, 86, 69]);
        b.extend_from_slice(&[74, 85, 78, 75]);
        put(&mut b, 28, 4);
        put(&mut b, 0, 8);
        put(&mut b, 0, 8);
        put(&mut b, 0, 8);
        put(&mut b, 0, 4);
    }
    assert(b@ =~= opening(format@, align, frames));
    let ghost front = b@;
    let mut c: Vec<u8> = Vec::new();
    c.extend_from_slice(&[102, 109, 116, 32]);
    put(&mut c, format.len() as u64, 4);
    c.extend_from_slice(format);
    c.extend_from_slice(&[102, 97, 99, 116]);
    put(&mut c, 4, 4);
    put(
        &mut c,
        if wide {
            0xffff_ffff
        } else {
            frames
        },
        4,
    );
    c.extend_from_slice(&[100, 97, 116, 97]);
    put(
        &mut c,
        if wide {
            0xffff_ffff
        } else {
            bytes
        },
        4,
    );
    assert(c@ =~= closing(format@, align, frames));
    b.extend_from_slice(c.as_slice());
    assert(b@ =~= header_bytes(format@, align, frames));
    Ok(b)
}

/// The format of 48 kHz floats.
pub open spec fn float_bytes(channels: u16) -> Seq<u8> {
    le_bytes(3, 2) + le_bytes(channels as int, 2) + le_bytes(48000, 4) + le_bytes(
        48000 * channels * 4,
        4,
    ) + le_bytes(channels * 4, 2) + le_bytes(32, 2)
}

/// The format chunk of 48 kHz floats.
pub fn float_format(channels: u16) -> (f: Vec<u8>)
    requires
        channels <= 16383,
    ensures
        f@ == float_bytes(channels),
{
    let mut f: Vec<u8> = Vec::new();
    put(&mut f, 3, 2);
    put(&mut f, channels as u64, 2);
    put(&mut f, 48000, 4);
    put(&mut f, 48000 * channels as u64 * 4, 4);
    put(&mut f, channels as u64 * 4, 2);
    put(&mut f, 32, 2);
    assert(f@ =~= float_bytes(channels));
    f
}

/// What is known of a file whose chunks have been read up to `at`.
#[derive(Clone, Copy, PartialEq, Eq, Structural, Debug)]
pub struct Scan {
    /// The length of the file.
    pub size: u64,
    /// The file has 64-bit sizes.
    pub rf64: bool,
    pub at: u64,
    pub fmt: bool,
    pub data: bool,
    pub ds: bool,
    pub data_at: u64,
    pub data_size: u64,
    /// The length of the data and the number of frames in the size chunk.
    pub rf_data: u64,
    pub rf_frames: u64,
    pub channels: u16,
    pub sample_rate: u32,
}

/// The float subformat of the extended format.
pub open spec fn float_guid() -> Seq<u8> {
    seq![3, 0, 0, 0, 0, 0, 0x10, 0, 0x80, 0, 0, 0xaa, 0, 0x38, 0x9b, 0x71]
}

/// The state after the first twelve bytes.
pub open spec fn begun(size: u64, head: Seq<u8>) -> Result<Scan, WaveError> {
    let rf64 = head.subrange(0, 4) == rf64_tag();
    if !(rf64 || head.subrange(0, 4) == riff_tag()) || head.subrange(8, 12) != wave_tag() {
        Err(WaveError::Head)
    } else if !rf64 && le_of(head.subrange(4, 8)) + 8 != size {
        Err(WaveError::Unsealed)
    } else {
        Ok(
            Scan {
                size,
                rf64,
                at: 12,
                fmt: false,
                data: false,
                ds: false,
                data_at: 0,
                data_size: 0,
                rf_data: 0,
                rf_frames: 0,
                channels: 0,
                sample_rate: 0,
            },
        )
    }
}

/// The length of the chunk with this head, less its padding.
pub open spec fn chunk_length(s: Scan, ch: Seq<u8>) -> Result<int, WaveError> {
    let wide = s.rf64 && ch.subrange(0, 4) == data_tag() && le_of(ch.subrange(4, 8)) == 0xffff_ffff;
    let len = if wide {
        s.rf_data as int
    } else {
        le_of(ch.subrange(4, 8))
    };
    if wide && !s.ds {
        Err(WaveError::SizesMissing)
    } else if len + len % 2 > s.size - s.at - 8 {
        Err(WaveError::ChunkLength)
    } else {
        Ok(len)
    }
}

/// How much of the chunk behind its head has to be read.
pub open spec fn body_length(s: Scan, ch: Seq<u8>) -> Result<int, WaveError> {
    match chunk_length(s, ch) {
        Err(e) => Err(e),
        Ok(len) => if ch.subrange(0, 4) == sizes_tag() {
            if s.rf64 && !s.ds && len >= 28 {
                Ok(28)
            } else {
                Err(WaveError::Sizes)
            }
        } else if ch.subrange(0, 4) == format_tag() {
            if !s.fmt && 16 <= len <= 4096 {
                Ok(len)
            } else {
                Err(WaveError::FormatChunk)
            }
        } else if ch.subrange(0, 4) == data_tag() && s.data {
            Err(WaveError::DuplicateData)
        } else {
            Ok(0)
        },
    }
}

/// A format of floats in the extended form.
pub open spec fn is_extended_float(body: Seq<u8>) -> bool {
    &&& body.len() >= 40
    &&& le_of(body.subrange(16, 18)) >= 22
    &&& le_of(body.subrange(18, 20)) == 32
    &&& body.subrange(24, 40) == float_guid()
}

/// The format names 48 kHz floats in 1 to 32 channels, and its sizes agree.
pub open spec fn is_float_format(body: Seq<u8>) -> bool {
    let channels = le_of(body.subrange(2, 4));
    &&& le_of(body.subrange(0, 2)) == 3 || le_of(body.subrange(0, 2)) == 0xfffe
    &&& 1 <= channels <= 32
    &&& le_of(body.subrange(4, 8)) == 48000
    &&& le_of(body.subrange(14, 16)) == 32
    &&& le_of(body.subrange(12, 14)) == channels * 4
    &&& le_of(body.subrange(8, 12)) == 48000 * channels * 4
}

/// The state after a chunk.
pub open spec fn stepped(s: Scan, ch: Seq<u8>, body: Seq<u8>) -> Result<Scan, WaveError> {
    let len = chunk_length(s, ch)->Ok_0;
    let next = (s.at + 8 + len + len % 2) as u64;
    if ch.subrange(0, 4) == sizes_tag() {
        if le_of(body.subrange(0, 8)) == s.size - 8 && le_of(body.subrange(24, 28)) == 0 {
            Ok(
                Scan {
                    ds: true,
                    rf_data: le_of(body.subrange(8, 16)) as u64,
                    rf_frames: le_of(body.subrange(16, 24)) as u64,
                    at: next,
                    ..s
                },
            )
        } else {
            Err(WaveError::UnsealedSizes)
        }
    } else if ch.subrange(0, 4) == format_tag() {
        if le_of(body.subrange(0, 2)) == 0xfffe && !is_extended_float(body) {
            Err(WaveError::Subformat)
        } else if !is_float_format(body) {
            Err(WaveError::Format)
        } else {
            Ok(
                Scan {
                    fmt: true,
                    channels: le_of(body.subrange(2, 4)) as u16,
                    sample_rate: 48000,
                    at: next,
                    ..s
                },
            )
        }
    } else if ch.subrange(0, 4) == data_tag() {
        Ok(Scan { data: true, data_at: (s.at + 8) as u64, data_size: len as u64, at: next, ..s })
    } else {
        Ok(Scan { at: next, ..s })
    }
}

impl Scan {
    /// The chunks read so far lie in the file, and what was found has been checked.
    pub open spec fn wf(self) -> bool {
        &&& 12 <= self.at
        &&& self.at <= self.size || self.at == 12
        &&& self.data_at + self.data_size <= self.size || !self.data
        &&& self.fmt ==> 1 <= self.channels <= 32 && self.sample_rate == 48000
    }
}

/// What the samples of a file are and where they stand.
#[derive(Clone, Copy, PartialEq, Eq, Structural, Debug)]
pub struct WaveReader {
    /// Where the first sample stands.
    pub data: u64,
    pub frames: u64,
    pub channels: u16,
    pub sample_rate: u32,
}

/// What the whole of the chunks amounts to.
pub open spec fn concluded(s: Scan) -> Result<WaveReader, WaveError> {
    let align = s.channels * 4;
    let frames = s.data_size as int / align;
    if !s.fmt || !s.data || s.data_size == 0 || (s.rf64 && !s.ds) {
        Err(WaveError::Missing)
    } else if s.data_size as int % align != 0 {
        Err(WaveError::UnalignedData)
    } else if s.rf64 && s.rf_frames != frames {
        Err(WaveError::FrameCount)
    } else {
        Ok(
            WaveReader {
                data: s.data_at,
                frames: frames as u64,
                channels: s.channels,
                sample_rate: s.sample_rate,
            },
        )
    }
}

/// The state after all chunks of a file from where the scan stands.
pub open spec fn scanned(file: Seq<u8>, s: Scan) -> Result<Scan, WaveError>
    decreases s.size - s.at,
{
    if s.at >= s.size {
        Ok(s)
    } else if s.size - s.at < 8 {
        Err(WaveError::TruncatedChunk)
    } else {
        let ch = file.subrange(s.at as int, s.at + 8);
        match body_length(s, ch) {
            Err(e) => Err(e),
            Ok(n) => match stepped(s, ch, file.subrange(s.at + 8, s.at + 8 + n)) {
                Err(e) => Err(e),
                Ok(next) => if s.at < next.at <= s.size && next.size == s.size {
                    scanned(file, next)
                } else {
                    Ok(next)
                },
            },
        }
    }
}

/// What the bytes of a file hold.
pub open spec fn opened(file: Seq<u8>) -> Result<WaveReader, WaveError> {
    if file.len() < 12 {
        Err(WaveError::Head)
    } else {
        match begun(file.len() as u64, file.subrange(0, 12)) {
            Err(e) => Err(e),
            Ok(s) => match scanned(file, s) {
                Err(e) => Err(e),
                Ok(end) => concluded(end),
            },
        }
    }
}

/// Whether the bytes at a place are these.
fn stands(bytes: &[u8], at: usize, tag: &[u8]) -> (res: bool)
    requires
        at + tag.len() <= bytes.len(),
    ensures
        res == (bytes@.subrange(at as int, at + tag.len()) == tag@),
{
    let mut i: usize = 0;
    while i < tag.len()
        invariant
            at + tag.len() <= bytes.len(),
            i <= tag.len(),
            forall|k: int| 0 <= k < i ==> #[trigger] bytes@[at + k] == tag@[k],
        decreases tag.len() - i,
    {
        if bytes[at + i] != tag[i] {
            assert(bytes@.subrange(at as int, at + tag.len())[i as int] != tag@[i as int]);
            return false;
        }
        i += 1;
    }
    proof {
        assert forall|k: int| 0 <= k < tag.len() implies bytes@.subrange(
            at as int,
            at + tag.len(),
        )[k] == tag@[k] by {
            assert(bytes@[at + k] == tag@[k]);
        }
        assert(bytes@.subrange(at as int, at + tag.len()) =~= tag@);
    }
    true
}

/// The number in the bytes at a place.
fn number(bytes: &[u8], at: usize, n: usize) -> (v: u64)
    requires
        n <= 8,
        at + n <= bytes.len(),
    ensures
        v == le_of(bytes@.subrange(at as int, at + n)),
        v < radix(n as nat),
{
    proof {
        le_of_is_bounded(bytes@.subrange(at as int, at + n));
    }
    le(slice_subrange(bytes, at, at + n))
}

impl Scan {
    /// Reads the first twelve bytes of a file of this size.
    pub fn begin(size: u64, head: &[u8]) -> (res: Result<Scan, WaveError>)
        requires
            head.len() == 12,
        ensures
            res == begun(size, head@),
            res matches Ok(s) ==> s.wf(),
    {
        proof {
            reveal_with_fuel(radix, 9);
        }
        let rf64 = stands(head, 0, &[82, 70, 54, 52]);
        let riff = stands(head, 0, &[82, 73, 70, 70]);
        let wave = stands(head, 8, &[87, 65, 86, 69]);
        let n: u64 = number(head, 4, 4);
        if !(rf64 || riff) || !wave {
            return Err(WaveError::Head);
        }
        if !rf64 && n + 8 != size {
            return Err(WaveError::Unsealed);
        }
        Ok(
            Scan {
                size,
                rf64,
                at: 12,
                fmt: false,
                data: false,
                ds: false,
                data_at: 0,
                data_size: 0,
                rf_data: 0,
                rf_frames: 0,
                channels: 0,
                sample_rate: 0,
            },
        )
    }

    /// Where the head of the next chunk is to be read, unless the file ends here.
    pub fn next(&self) -> (res: Result<Option<u64>, WaveError>)
        requires
            self.wf(),
        ensures
            self.at >= self.size ==> res == Ok::<Option<u64>, WaveError>(None),
            self.at < self.size && self.size - self.at < 8 ==> res == Err::<Option<u64>, _>(
                WaveError::TruncatedChunk,
            ),
            self.size - self.at >= 8 ==> res == Ok::<_, WaveError>(Some(self.at)),
    {
        if self.at >= self.size {
            return Ok(None);
        }
        if self.size - self.at < 8 {
            return Err(WaveError::TruncatedChunk);
        }
        Ok(Some(self.at))
    }

    fn length(&self, ch: &[u8]) -> (res: Result<u64, WaveError>)
        requires
            self.wf(),
            ch.len() == 8,
            self.size - self.at >= 8,
        ensures
            res matches Err(e) ==> chunk_length(*self, ch@) == Err::<int, _>(e),
            res matches Ok(n) ==> chunk_length(*self, ch@) == Ok::<_, WaveError>(n as int) && n + n
                % 2 <= self.size - self.at - 8,
    {
        proof {
            reveal_with_fuel(radix, 9);
        }
        let mut len: u64 = number(ch, 4, 4);
        let is_data = stands(ch, 0, &[100, 97, 116, 97]);
        if self.rf64 && is_data && len == 0xffff_ffff {
            if !self.ds {
                return Err(WaveError::SizesMissing);
            }
            len = self.rf_data;
        }
        let room: u64 = self.size - self.at - 8;
        if len > room || len % 2 > room - len {
            return Err(WaveError::ChunkLength);
        }
        Ok(len)
    }

    /// How many bytes behind the head of a chunk have to be read.
    pub fn body(&self, ch: &[u8]) -> (res: Result<u64, WaveError>)
        requires
            self.wf(),
            ch.len() == 8,
            self.size - self.at >= 8,
        ensures
            res matches Err(e) ==> body_length(*self, ch@) == Err::<int, _>(e),
            res matches Ok(n) ==> body_length(*self, ch@) == Ok::<_, WaveError>(n as int) && n
                <= 4096 && n <= self.size - self.at - 8,
    {
        let len: u64 = match self.length(ch) {
            Ok(n) => n,
            Err(e) => {
                return Err(e);
            },
        };
        let is_sizes = stands(ch, 0, &[100, 115, 54, 52]);
        let is_format = stands(ch, 0, &[102, 109, 116, 32]);
        let is_data = stands(ch, 0, &[100, 97, 116, 97]);
        if is_sizes {
            if self.rf64 && !self.ds && len >= 28 {
                Ok(28)
            } else {
                Err(WaveError::Sizes)
            }
        } else if is_format {
            if !self.fmt && 16 <= len && len <= 4096 {
                Ok(len)
            } else {
                Err(WaveError::FormatChunk)
            }
        } else if is_data && self.data {
            Err(WaveError::DuplicateData)
        } else {
            Ok(0)
        }
    }

    /// Takes a chunk in: its head and as many bytes behind it as `body` asked for.
    pub fn step(&mut self, ch: &[u8], body: &[u8]) -> (res: Result<(), WaveError>)
        requires
            old(self).wf(),
            ch.len() == 8,
            old(self).size - old(self).at >= 8,
            body_length(*old(self), ch@) == Ok::<_, WaveError>(body@.len() as int),
        ensures
            res matches Err(e) ==> stepped(*old(self), ch@, body@) == Err::<Scan, _>(e)
                && *final(self) == *old(self),
            res is Ok ==> stepped(*old(self), ch@, body@) == Ok::<_, WaveError>(*final(self)),
            final(self).wf(),
            final(self).size == old(self).size,
            res is Ok ==> final(self).at > old(self).at,
    {
        proof {
            reveal_with_fuel(radix, 9);
        }
        let len: u64 = match self.length(ch) {
            Ok(n) => n,
            Err(e) => {
                return Err(e);
            },
        };
        let is_sizes = stands(ch, 0, &[100, 115, 54, 52]);
        let is_format = stands(ch, 0, &[102, 109, 116, 32]);
        let is_data = stands(ch, 0, &[100, 97, 116, 97]);
        let next: u64 = self.at + 8 + len + len % 2;
        if is_sizes {
            if number(body, 0, 8) != self.size - 8 || number(body, 24, 4) != 0 {
                return Err(WaveError::UnsealedSizes);
            }
            self.ds = true;
            self.rf_data = number(body, 8, 8);
            self.rf_frames = number(body, 16, 8);
        } else if is_format {
            let kind: u64 = number(body, 0, 2);
            let channels: u64 = number(body, 2, 2);
            if kind == 0xfffe && !(body.len() >= 40 && number(body, 16, 2) >= 22 && number(
                body,
                18,
                2,
            ) == 32 && stands(
                body,
                24,
                &[3, 0, 0, 0, 0, 0, 0x10, 0, 0x80, 0, 0, 0xaa, 0, 0x38, 0x9b, 0x71],
            )) {
                return Err(WaveError::Subformat);
            }
            if !((kind == 3 || kind == 0xfffe) && 1 <= channels && channels <= 32 && number(
                body,
                4,
                4,
            ) == 48000 && number(body, 14, 2) == 32 && number(body, 12, 2) == channels * 4
                && number(body, 8, 4) == 48000 * channels * 4) {
                return Err(WaveError::Format);
            }
            self.fmt = true;
            self.channels = channels as u16;
            self.sample_rate = 48000;
        } else if is_data {
            self.data = true;
            self.data_at = self.at + 8;
            self.data_size = len;
        }
        self.at = next;
        Ok(())
    }

    /// What the chunks amount to.
    pub fn finish(&self) -> (res: Result<WaveReader, WaveError>)
        requires
            self.wf(),
        ensures
            res == concluded(*self),
            res matches Ok(r) ==> r.wf(),
    {
        if !self.fmt || !self.data || self.data_size == 0 || (self.rf64 && !self.ds) {
            return Err(WaveError::Missing);
        }
        let align: u64 = self.channels as u64 * 4;
        if self.data_size % align != 0 {
            return Err(WaveError::UnalignedData);
        }
        let frames: u64 = self.data_size / align;
        if self.rf64 && self.rf_frames != frames {
            return Err(WaveError::FrameCount);
        }
        proof {
            vstd::arithmetic::div_mod::lemma_fundamental_div_mod(
                self.data_size as int,
                align as int,
            );
            assert(frames * self.channels * 4 == align * frames) by (nonlinear_arith)
                requires
                    align == self.channels * 4,
            ;
        }
        Ok(
            WaveReader {
                data: self.data_at,
                frames,
                channels: self.channels,
                sample_rate: self.sample_rate,
            },
        )
    }
}

impl WaveReader {
    /// Reads the layout of a file that is held in memory.
    pub fn open(file: &[u8]) -> (res: Result<WaveReader, WaveError>)
        ensures
            res == opened(file@),
            res matches Ok(r) ==> r.wf(),
    {
        if file.len() < 12 {
            return Err(WaveError::Head);
        }
        let mut scan = match Scan::begin(file.len() as u64, slice_subrange(file, 0, 12)) {
            Ok(scan) => scan,
            Err(e) => {
                return Err(e);
            },
        };
        let ghost start = scan;
        loop
            invariant
                scan.wf(),
                scan.size == file.len(),
                begun(file.len() as u64, file@.subrange(0, 12)) == Ok::<_, WaveError>(start),
                file.len() >= 12,
                scanned(file@, start) == scanned(file@, scan),
            ensures
                scan.wf(),
                scanned(file@, start) == Ok::<_, WaveError>(scan),
            decreases scan.size - scan.at,
        {
            let at: usize = match scan.next() {
                Ok(Some(at)) => at as usize,
                Ok(None) => {
                    break;
                },
                Err(e) => {
                    return Err(e);
                },
            };
            let ch = slice_subrange(file, at, at + 8);
            let n: usize = match scan.body(ch) {
                Ok(n) => n as usize,
                Err(e) => {
                    return Err(e);
                },
            };
            let body = slice_subrange(file, at + 8, at + 8 + n);
            match scan.step(ch, body) {
                Ok(_) => {},
                Err(e) => {
                    return Err(e);
                },
            }
        }
        scan.finish()
    }
}

/// The bytes of samples, each the least significant byte first.
pub open spec fn sample_bytes(samples: Seq<u32>) -> Seq<u8>
    decreases samples.len(),
{
    if samples.len() == 0 {
        Seq::empty()
    } else {
        sample_bytes(samples.drop_last()) + le_bytes(samples.last() as int, 4)
    }
}

/// The samples in bytes.
pub open spec fn samples_in(bytes: Seq<u8>) -> Seq<u32> {
    Seq::new(
        (bytes.len() / 4) as nat,
        |i: int| le_of(bytes.subrange(4 * i, 4 * i + 4)) as u32,
    )
}

/// The samples that bytes hold, as bit patterns.
pub fn samples(bytes: &[u8]) -> (out: Vec<u32>)
    ensures
        out@ == samples_in(bytes@),
{
    let n: usize = bytes.len() / 4;
    let mut out: Vec<u32> = Vec::new();
    while out.len() < n
        invariant
            n == bytes.len() / 4,
            out.len() <= n,
            out@ == samples_in(bytes@).take(out.len() as int),
        decreases n - out.len(),
    {
        let at: usize = 4 * out.len();
        proof {
            reveal_with_fuel(radix, 9);
        }
        let v: u64 = number(bytes, at, 4);
        let ghost was = out@;
        out.push(v as u32);
        assert(out@ =~= samples_in(bytes@).take(out.len() as int));
    }
    assert(out@ =~= samples_in(bytes@));
    out
}

impl WaveReader {
    /// The frames that were found lie in the file.
    pub open spec fn wf(self) -> bool {
        &&& 1 <= self.channels <= 32
        &&& self.data + self.frames * self.channels * 4 <= u64::MAX
    }

    /// Where `count` frames from `first` on stand in the file, and in how many bytes.
    pub fn read(&self, first: u64, count: u32) -> (res: Result<(u64, usize), WaveError>)
        requires
            self.wf(),
        ensures
            first + count <= self.frames && count <= 480000 ==> res == Ok::<_, WaveError>(
                (
                    (self.data + first * self.channels * 4) as u64,
                    (count * self.channels * 4) as usize,
                ),
            ),
            first + count > self.frames || count > 480000 ==> res == Err::<(u64, usize), _>(
                WaveError::Range,
            ),
    {
        if first > self.frames || count as u64 > self.frames - first || count > 480000 {
            return Err(WaveError::Range);
        }
        proof {
            let c = self.channels as int;
            assert(first * c * 4 <= self.frames * c * 4) by (nonlinear_arith)
                requires
                    first <= self.frames,
                    c >= 1,
            ;
            assert(0 <= count * c * 4 <= 480000 * 32 * 4) by (nonlinear_arith)
                requires
                    0 <= count <= 480000,
                    1 <= c <= 32,
            ;
            assert(0 <= first * c <= first * c * 4) by (nonlinear_arith)
                requires
                    c >= 1,
            ;
            assert(0 <= count * c <= count * c * 4) by (nonlinear_arith)
                requires
                    c >= 1,
            ;
        }
        Ok(
            (
                self.data + first * self.channels as u64 * 4,
                count as usize * self.channels as usize * 4,
            ),
        )
    }
}

/// A file that is being written: its format and how many frames it has.
#[derive(Debug)]
pub struct WaveWriter {
    format: Vec<u8>,
    channels: u16,
    frames: u64,
}

impl WaveWriter {
    pub closed spec fn channels(&self) -> u16 {
        self.channels
    }

    pub closed spec fn written(&self) -> u64 {
        self.frames
    }

    pub closed spec fn wf(&self) -> bool {
        &&& 1 <= self.channels <= 32
        &&& self.format@ == float_bytes(self.channels)
    }

    /// A file without frames.
    pub fn create(channels: u16) -> (res: Result<WaveWriter, WaveError>)
        ensures
            1 <= channels <= 32 ==> (res matches Ok(w) && w.wf() && w.channels() == channels
                && w.written() == 0),
            !(1 <= channels <= 32) ==> res == Err::<WaveWriter, _>(WaveError::Channels),
    {
        if channels < 1 || channels > 32 {
            return Err(WaveError::Channels);
        }
        Ok(WaveWriter { format: float_format(channels), channels, frames: 0 })
    }

    /// The number of frames so far.
    pub fn frames(&self) -> (n: u64)
        ensures
            n == self.written(),
    {
        self.frames
    }

    /// The bytes to write for samples, which have to be whole frames. They are not counted
    /// before they have been written.
    pub fn bytes(&self, samples: &[u32]) -> (res: Result<Vec<u8>, WaveError>)
        requires
            self.wf(),
        ensures
            samples.len() as int % self.channels() as int == 0 ==> (res matches Ok(bytes)
                && bytes@ == sample_bytes(samples@)),
            samples.len() as int % self.channels() as int != 0 ==> res == Err::<Vec<u8>, _>(
                WaveError::Unaligned,
            ),
    {
        if samples.len() % self.channels as usize != 0 {
            return Err(WaveError::Unaligned);
        }
        let mut bytes: Vec<u8> = Vec::new();
        let mut i: usize = 0;
        assert(samples@.take(0) =~= Seq::<u32>::empty());
        while i < samples.len()
            invariant
                i <= samples.len(),
                bytes@ == sample_bytes(samples@.take(i as int)),
            decreases samples.len() - i,
        {
            put(&mut bytes, samples[i] as u64, 4);
            i += 1;
            assert(samples@.take(i as int).drop_last() =~= samples@.take(i - 1));
        }
        assert(samples@.take(samples@.len() as int) =~= samples@);
        Ok(bytes)
    }

    /// Samples have been handed to the file. They count if they were written, and then
    /// they are whole frames.
    pub fn append(&mut self, samples: &[u32], written: bool) -> (res: Result<(), WaveError>)
        requires
            old(self).wf(),
            old(self).written() + samples.len() <= u64::MAX,
        ensures
            final(self).wf(),
            final(self).channels() == old(self).channels(),
            samples.len() as int % old(self).channels() as int != 0 ==> res == Err::<(), _>(
                WaveError::Unaligned,
            ),
            samples.len() as int % old(self).channels() as int == 0 ==> res == (if written {
                Ok(())
            } else {
                Err(WaveError::Unwritten)
            }),
            final(self).written() == (if res is Ok {
                old(self).written() + samples.len() as int / old(self).channels() as int
            } else {
                old(self).written() as int
            }),
    {
        if samples.len() % self.channels as usize != 0 {
            return Err(WaveError::Unaligned);
        }
        if !written {
            return Err(WaveError::Unwritten);
        }
        proof {
            let n = samples.len() as int;
            let c = self.channels as int;
            assert(n / c <= n) by (nonlinear_arith)
                requires
                    n >= 0,
                    c >= 1,
            ;
        }
        self.frames = self.frames + (samples.len() / self.channels as usize) as u64;
        Ok(())
    }

    /// The header to write at the start of the file, and where the data ends.
    pub fn flush(&self) -> (res: Result<(Vec<u8>, u64), WaveError>)
        requires
            self.wf(),
        ensures
            has_header(float_bytes(self.channels()), (self.channels() * 4) as u16, self.written())
                ==> (res matches Ok(r) && r.0@ == header_bytes(
                float_bytes(self.channels()),
                (self.channels() * 4) as u16,
                self.written(),
            ) && r.1 == r.0@.len() + self.written() * self.channels() * 4),
            !has_header(float_bytes(self.channels()), (self.channels() * 4) as u16, self.written())
                ==> res == Err::<(Vec<u8>, u64), _>(WaveError::Size),
    {
        let align: u16 = self.channels * 4;
        proof {
            float_bytes_len(self.channels);
            header_len(self.format@, align, self.frames);
        }
        match header(&self.format, align, self.frames) {
            Ok(head) => {
                proof {
                    let room = i64::MAX - 92;
                    let n = self.frames as int;
                    let a = align as int;
                    assert(n * a <= room) by (nonlinear_arith)
                        requires
                            a > 0,
                            n <= room / a,
                    ;
                    assert(n * (self.channels * 4) == n * self.channels * 4) by (nonlinear_arith);
                }
                let end: u64 = head.len() as u64 + self.frames * align as u64;
                Ok((head, end))
            },
            Err(e) => Err(e),
        }
    }
}

proof fn le_bytes_len(v: int, n: nat)
    ensures
        le_bytes(v, n).len() == n,
    decreases n,
{
    if n > 0 {
        le_bytes_len(v / 256, (n - 1) as nat);
    }
}

proof fn float_bytes_len(channels: u16)
    ensures
        float_bytes(channels).len() == 16,
{
    le_bytes_len(3, 2);
    le_bytes_len(channels as int, 2);
    le_bytes_len(48000, 4);
    le_bytes_len(48000 * channels * 4, 4);
    le_bytes_len(channels * 4, 2);
    le_bytes_len(32, 2);
}

proof fn header_len(format: Seq<u8>, align: u16, frames: u64)
    ensures
        opening(format, align, frames).len() == 48,
        closing(format, align, frames).len() == 28 + format.len(),
        header_bytes(format, align, frames).len() == 76 + format.len(),
{
    assert forall|v: int, n: nat| #[trigger] le_bytes(v, n).len() == n by {
        le_bytes_len(v, n);
    }
}

/// The parts of a file with `len` bytes of data stand in their places.
spec fn laid_out(file: Seq<u8>, channels: u16, frames: u64, len: int, wide: bool) -> bool {
    &&& file.len() == 92 + len
    &&& if wide {
        &&& file.subrange(0, 4) == rf64_tag()
        &&& file.subrange(12, 16) == sizes_tag()
        &&& le_of(file.subrange(20, 28)) == len + 84
        &&& le_of(file.subrange(28, 36)) == len
        &&& le_of(file.subrange(36, 44)) == frames
        &&& le_of(file.subrange(44, 48)) == 0
        &&& le_of(file.subrange(88, 92)) == 0xffff_ffff
    } else {
        &&& file.subrange(0, 4) == riff_tag()
        &&& le_of(file.subrange(4, 8)) == len + 84
        &&& file.subrange(12, 16) == junk_tag()
        &&& le_of(file.subrange(88, 92)) == len
    }
    &&& file.subrange(8, 12) == wave_tag()
    &&& le_of(file.subrange(16, 20)) == 28
    &&& file.subrange(48, 52) == format_tag()
    &&& le_of(file.subrange(52, 56)) == 16
    &&& file.subrange(56, 72) == float_bytes(channels)
    &&& file.subrange(72, 76) == fact_tag()
    &&& le_of(file.subrange(76, 80)) == 4
    &&& file.subrange(84, 88) == data_tag()
}

proof fn parts_of_file(channels: u16, frames: u64, data: Seq<u8>, file: Seq<u8>)
    requires
        1 <= channels <= 32,
        data.len() == frames * channels * 4,
        data.len() + 92 <= i64::MAX,
        file == header_bytes(float_bytes(channels), (channels * 4) as u16, frames) + data,
    ensures
        laid_out(
            file,
            channels,
            frames,
            data.len() as int,
            is_wide(float_bytes(channels), (channels * 4) as u16, frames),
        ),
{
    let format = float_bytes(channels);
    let align = (channels * 4) as u16;
    reveal_with_fuel(radix, 9);
    float_bytes_len(channels);
    header_len(format, align, frames);
    assert(frames * (channels * 4) == frames * channels * 4) by (nonlinear_arith);
    assert(frames <= frames * channels * 4) by (nonlinear_arith)
        requires
            channels >= 1,
    ;
    let riff = data.len() as int + 84;
    assert forall|v: int, n: nat| #[trigger] le_bytes(v, n).len() == n by {
        le_bytes_len(v, n);
    }
    let front = opening(format, align, frames);
    let back = closing(format, align, frames);
    assert(file =~= front + back + data);
    le_gives_back(28, 4);
    le_gives_back(16, 4);
    le_gives_back(4, 4);
    le_gives_back(0, 4);
    assert(file.subrange(8, 12) =~= wave_tag());
    assert(file.subrange(16, 20) =~= le_bytes(28, 4));
    assert(file.subrange(48, 52) =~= format_tag());
    assert(file.subrange(52, 56) =~= le_bytes(16, 4));
    assert(file.subrange(56, 72) =~= format);
    assert(file.subrange(72, 76) =~= fact_tag());
    assert(file.subrange(76, 80) =~= le_bytes(4, 4));
    assert(file.subrange(84, 88) =~= data_tag());
    if is_wide(format, align, frames) {
        le_gives_back(0xffff_ffff, 4);
        le_gives_back(riff, 8);
        le_gives_back(data.len() as int, 8);
        le_gives_back(frames as int, 8);
        assert(file.subrange(0, 4) =~= rf64_tag());
        assert(file.subrange(12, 16) =~= sizes_tag());
        assert(file.subrange(20, 28) =~= le_bytes(riff, 8));
        assert(file.subrange(28, 36) =~= le_bytes(data.len() as int, 8));
        assert(file.subrange(36, 44) =~= le_bytes(frames as int, 8));
        assert(file.subrange(44, 48) =~= le_bytes(0, 4));
        assert(file.subrange(88, 92) =~= le_bytes(0xffff_ffff, 4));
    } else {
        le_gives_back(riff, 4);
        le_gives_back(data.len() as int, 4);
        assert(file.subrange(0, 4) =~= riff_tag());
        assert(file.subrange(4, 8) =~= le_bytes(riff, 4));
        assert(file.subrange(12, 16) =~= junk_tag());
        assert(file.subrange(88, 92) =~= le_bytes(data.len() as int, 4));
    }
}

/// The format that is written is one that is read.
proof fn float_format_is_float(channels: u16)
    requires
        1 <= channels <= 32,
    ensures
        is_float_format(float_bytes(channels)),
        le_of(float_bytes(channels).subrange(0, 2)) == 3,
        le_of(float_bytes(channels).subrange(2, 4)) == channels,
{
    reveal_with_fuel(radix, 9);
    let f = float_bytes(channels);
    le_gives_back(3, 2);
    le_gives_back(channels as int, 2);
    le_gives_back(48000, 4);
    le_gives_back(48000 * channels * 4, 4);
    le_gives_back(channels * 4, 2);
    le_gives_back(32, 2);
    assert(f.subrange(0, 2) =~= le_bytes(3, 2));
    assert(f.subrange(2, 4) =~= le_bytes(channels as int, 2));
    assert(f.subrange(4, 8) =~= le_bytes(48000, 4));
    assert(f.subrange(8, 12) =~= le_bytes(48000 * channels * 4, 4));
    assert(f.subrange(12, 14) =~= le_bytes(channels * 4, 2));
    assert(f.subrange(14, 16) =~= le_bytes(32, 2));
}

/// A chunk that holds neither sizes nor format nor data is passed over.
proof fn other_chunk(file: Seq<u8>, s: Scan, len: int)
    requires
        s.size == file.len(),
        s.at + 8 + len <= s.size,
        len % 2 == 0,
        0 <= len < 0xffff_ffff,
        le_of(file.subrange(s.at + 4, s.at + 8)) == len,
        file.subrange(s.at as int, s.at + 4) == junk_tag() || file.subrange(s.at as int, s.at + 4)
            == fact_tag(),
    ensures
        scanned(file, s) == scanned(file, Scan { at: (s.at + 8 + len) as u64, ..s }),
{
    let ch = file.subrange(s.at as int, s.at + 8);
    assert(ch.subrange(0, 4) =~= file.subrange(s.at as int, s.at + 4));
    assert(ch.subrange(4, 8) =~= file.subrange(s.at + 4, s.at + 8));
    let tag = ch.subrange(0, 4);
    assert(tag[0] == 74 || tag[0] == 102 && tag[1] == 97);
    assert(tag != sizes_tag());
    assert(tag != format_tag());
    assert(tag != data_tag());
}

/// The size chunk at the head of a large file is taken in.
proof fn sizes_chunk(file: Seq<u8>, s: Scan)
    requires
        s.size == file.len(),
        s.rf64,
        !s.ds,
        s.at + 36 <= s.size,
        file.subrange(s.at as int, s.at + 4) == sizes_tag(),
        le_of(file.subrange(s.at + 4, s.at + 8)) == 28,
        le_of(file.subrange(s.at + 8, s.at + 16)) == s.size - 8,
        le_of(file.subrange(s.at + 32, s.at + 36)) == 0,
    ensures
        scanned(file, s) == scanned(
            file,
            Scan {
                at: (s.at + 36) as u64,
                ds: true,
                rf_data: le_of(file.subrange(s.at + 16, s.at + 24)) as u64,
                rf_frames: le_of(file.subrange(s.at + 24, s.at + 32)) as u64,
                ..s
            },
        ),
{
    let at = s.at as int;
    let ch = file.subrange(at, at + 8);
    assert(ch.subrange(0, 4) =~= file.subrange(at, at + 4));
    assert(ch.subrange(4, 8) =~= file.subrange(at + 4, at + 8));
    assert(sizes_tag()[1] != data_tag()[1]);
    assert(chunk_length(s, ch) == Ok::<_, WaveError>(28int));
    let body = file.subrange(at + 8, at + 36);
    assert(body.subrange(0, 8) =~= file.subrange(at + 8, at + 16));
    assert(body.subrange(8, 16) =~= file.subrange(at + 16, at + 24));
    assert(body.subrange(16, 24) =~= file.subrange(at + 24, at + 32));
    assert(body.subrange(24, 28) =~= file.subrange(at + 32, at + 36));
}

/// A format chunk of plain floats is taken in.
proof fn format_chunk(file: Seq<u8>, s: Scan, channels: u16)
    requires
        s.size == file.len(),
        !s.fmt,
        1 <= channels <= 32,
        s.at + 24 <= s.size,
        file.subrange(s.at as int, s.at + 4) == format_tag(),
        le_of(file.subrange(s.at + 4, s.at + 8)) == 16,
        file.subrange(s.at + 8, s.at + 24) == float_bytes(channels),
    ensures
        scanned(file, s) == scanned(
            file,
            Scan { at: (s.at + 24) as u64, fmt: true, channels, sample_rate: 48000, ..s },
        ),
{
    let at = s.at as int;
    let ch = file.subrange(at, at + 8);
    assert(ch.subrange(0, 4) =~= file.subrange(at, at + 4));
    assert(ch.subrange(4, 8) =~= file.subrange(at + 4, at + 8));
    assert(format_tag()[0] != data_tag()[0] && format_tag()[0] != sizes_tag()[0]);
    assert(chunk_length(s, ch) == Ok::<_, WaveError>(16int));
    float_format_is_float(channels);
}

/// A data chunk that ends the file is taken in.
proof fn data_chunk(file: Seq<u8>, s: Scan, len: int)
    requires
        s.size == file.len(),
        !s.data,
        len >= 0,
        len % 2 == 0,
        s.at + 8 + len == s.size,
        file.subrange(s.at as int, s.at + 4) == data_tag(),
        if s.rf64 {
            le_of(file.subrange(s.at + 4, s.at + 8)) == 0xffff_ffff && s.ds && s.rf_data == len
        } else {
            le_of(file.subrange(s.at + 4, s.at + 8)) == len
        },
    ensures
        scanned(file, s) == Ok::<_, WaveError>(
            Scan {
                at: s.size,
                data: true,
                data_at: (s.at + 8) as u64,
                data_size: len as u64,
                ..s
            },
        ),
{
    let at = s.at as int;
    let ch = file.subrange(at, at + 8);
    assert(ch.subrange(0, 4) =~= file.subrange(at, at + 4));
    assert(ch.subrange(4, 8) =~= file.subrange(at + 4, at + 8));
    assert(data_tag()[1] != sizes_tag()[1]);
    assert(data_tag()[0] != format_tag()[0]);
    assert(chunk_length(s, ch) == Ok::<_, WaveError>(len));
    let end = Scan {
        at: s.size,
        data: true,
        data_at: (s.at + 8) as u64,
        data_size: len as u64,
        ..s
    };
    assert(scanned(file, s) == scanned(file, end));
}

proof fn laid_out_file_opens(file: Seq<u8>, channels: u16, frames: u64, len: int, wide: bool)
    requires
        1 <= channels <= 32,
        0 <= len <= i64::MAX - 92,
        len == frames * (channels * 4),
        laid_out(file, channels, frames, len, wide),
    ensures
        opened(file) == (if len > 0 {
            Ok(WaveReader { data: 92, frames, channels, sample_rate: 48000 })
        } else {
            Err(WaveError::Missing)
        }),
{
    let head = file.subrange(0, 12);
    assert(head.subrange(0, 4) =~= file.subrange(0, 4));
    assert(head.subrange(4, 8) =~= file.subrange(4, 8));
    assert(head.subrange(8, 12) =~= file.subrange(8, 12));
    assert(rf64_tag()[1] != riff_tag()[1]);
    let s0 = begun(file.len() as u64, head)->Ok_0;
    let s1 = if wide {
        Scan { at: 48, ds: true, rf_data: len as u64, rf_frames: frames, ..s0 }
    } else {
        Scan { at: 48, ..s0 }
    };
    if wide {
        sizes_chunk(file, s0);
    } else {
        other_chunk(file, s0, 28);
    }
    let s2 = Scan { at: 72, fmt: true, channels, sample_rate: 48000, ..s1 };
    format_chunk(file, s1, channels);
    let s3 = Scan { at: 84, ..s2 };
    other_chunk(file, s2, 4);
    let align = channels * 4;
    assert(frames * (channels * 4) == 4 * (frames * channels)) by (nonlinear_arith);
    vstd::arithmetic::div_mod::lemma_mod_multiples_basic(frames as int, align);
    vstd::arithmetic::div_mod::lemma_div_by_multiple(frames as int, align);
    data_chunk(file, s3, len);
}

/// What is written is read back: a file that consists of the header and of as much
/// data as it announces opens, and gives the same channels, the same number of
/// frames, and the place where the data begins. One without a frame does not open.
pub proof fn written_file_opens(channels: u16, frames: u64, data: Seq<u8>)
    requires
        1 <= channels <= 32,
        has_header(float_bytes(channels), (channels * 4) as u16, frames),
        data.len() == frames * channels * 4,
    ensures
        opened(header_bytes(float_bytes(channels), (channels * 4) as u16, frames) + data) == (
        if frames > 0 {
            Ok(WaveReader { data: 92, frames, channels, sample_rate: 48000 })
        } else {
            Err(WaveError::Missing)
        }),
{
    let format = float_bytes(channels);
    let align = (channels * 4) as u16;
    let file = header_bytes(format, align, frames) + data;
    float_bytes_len(channels);
    assert(frames * (channels * 4) == frames * channels * 4) by (nonlinear_arith);
    assert(0 <= frames * align <= i64::MAX - 92) by (nonlinear_arith)
        requires
            align > 0,
            frames <= (i64::MAX - 92) / align as int,
    ;
    assert(frames > 0 ==> frames * align > 0) by (nonlinear_arith)
        requires
            align > 0,
    ;
    parts_of_file(channels, frames, data, file);
    let wide = is_wide(format, align, frames);
    laid_out_file_opens(file, channels, frames, data.len() as int, wide);
}

/// A file that was written and then cut or lengthened does not open: it is no longer as
/// long as it says.
pub proof fn damaged_files_do_not_open(
    channels: u16,
    frames: u64,
    data: Seq<u8>,
    damaged: Seq<u8>,
)
    requires
        1 <= channels <= 32,
        has_header(float_bytes(channels), (channels * 4) as u16, frames),
        data.len() == frames * channels * 4,
        damaged.len() <= u64::MAX,
        ({
            let file = header_bytes(float_bytes(channels), (channels * 4) as u16, frames) + data;
            &&& damaged.len() != file.len()
            &&& damaged.is_prefix_of(file) || file.is_prefix_of(damaged)
        }),
    ensures
        opened(damaged) is Err,
{
    let format = float_bytes(channels);
    let align = (channels * 4) as u16;
    let file = header_bytes(format, align, frames) + data;
    let wide = is_wide(format, align, frames);
    float_bytes_len(channels);
    header_len(format, align, frames);
    assert(frames * (channels * 4) == frames * channels * 4) by (nonlinear_arith);
    assert(frames * align <= i64::MAX - 92) by (nonlinear_arith)
        requires
            align > 0,
            frames <= (i64::MAX - 92) / align as int,
    ;
    parts_of_file(channels, frames, data, file);
    damaged_layout(file, channels, frames, data.len() as int, wide, damaged);
}

proof fn damaged_layout(
    file: Seq<u8>,
    channels: u16,
    frames: u64,
    len: int,
    wide: bool,
    damaged: Seq<u8>,
)
    requires
        0 <= len <= i64::MAX - 92,
        laid_out(file, channels, frames, len, wide),
        damaged.len() <= u64::MAX,
        damaged.len() != file.len(),
        damaged.is_prefix_of(file) || file.is_prefix_of(damaged),
    ensures
        opened(damaged) is Err,
{
    assert forall|i: int| 0 <= i < 48 && i < damaged.len() implies damaged[i] == file[i] by {}
    if damaged.len() >= 12 {
        let head = damaged.subrange(0, 12);
        assert(head.subrange(0, 4) =~= file.subrange(0, 4));
        assert(head.subrange(4, 8) =~= file.subrange(4, 8));
        assert(rf64_tag()[1] != riff_tag()[1]);
        let s = begun(damaged.len() as u64, head);
        if wide && s is Ok {
            damaged_sizes(file, len, damaged, s->Ok_0);
        }
    }
}

/// A file with 64-bit sizes that is not as long as they say is refused at the latest
/// where they stand.
proof fn damaged_sizes(file: Seq<u8>, len: int, damaged: Seq<u8>, s: Scan)
    requires
        file.len() == 92 + len,
        file.subrange(12, 16) == sizes_tag(),
        le_of(file.subrange(16, 20)) == 28,
        le_of(file.subrange(20, 28)) == len + 84,
        12 <= damaged.len() <= u64::MAX,
        damaged.len() != file.len(),
        forall|i: int| 0 <= i < 48 && i < damaged.len() ==> damaged[i] == file[i],
        s.size == damaged.len(),
        s.at == 12,
        s.rf64,
        !s.ds,
        !s.fmt,
        len >= 0,
    ensures
        match scanned(damaged, s) {
            Err(_) => true,
            Ok(end) => concluded(end) is Err,
        },
{
    if damaged.len() >= 20 {
        let ch = damaged.subrange(12, 20);
        assert(ch.subrange(0, 4) =~= file.subrange(12, 16));
        assert(ch.subrange(4, 8) =~= file.subrange(16, 20));
        assert(sizes_tag()[1] != data_tag()[1]);
        if damaged.len() >= 48 {
            assert(chunk_length(s, ch) == Ok::<_, WaveError>(28int));
            assert(body_length(s, ch) == Ok::<_, WaveError>(28int));
            let body = damaged.subrange(20, 48);
            assert(body.subrange(0, 8) =~= file.subrange(20, 28));
            assert(stepped(s, ch, body) is Err);
        } else {
            assert(chunk_length(s, ch) is Err);
        }
    }
}

proof fn sample_bytes_of(samples: Seq<u32>)
    ensures
        sample_bytes(samples).len() == 4 * samples.len(),
        forall|i: int|
            0 <= i < samples.len() ==> #[trigger] sample_bytes(samples).subrange(4 * i, 4 * i + 4)
                == le_bytes(samples[i] as int, 4),
    decreases samples.len(),
{
    if samples.len() > 0 {
        let rest = samples.drop_last();
        sample_bytes_of(rest);
        le_bytes_len(samples.last() as int, 4);
        assert forall|i: int| 0 <= i < samples.len() implies #[trigger] sample_bytes(
            samples,
        ).subrange(4 * i, 4 * i + 4) == le_bytes(samples[i] as int, 4) by {
            if i < rest.len() {
                assert(sample_bytes(samples).subrange(4 * i, 4 * i + 4) =~= sample_bytes(
                    rest,
                ).subrange(4 * i, 4 * i + 4));
            } else {
                assert(sample_bytes(samples).subrange(4 * i, 4 * i + 4) =~= le_bytes(
                    samples[i] as int,
                    4,
                ));
            }
        }
    }
}

/// Samples come back out of their bytes.
pub proof fn samples_come_back(samples: Seq<u32>)
    ensures
        samples_in(sample_bytes(samples)) == samples,
{
    reveal_with_fuel(radix, 9);
    sample_bytes_of(samples);
    let bytes = sample_bytes(samples);
    assert forall|i: int| 0 <= i < samples.len() implies samples_in(bytes)[i] == samples[i] by {
        le_gives_back(samples[i] as int, 4);
        assert(bytes.subrange(4 * i, 4 * i + 4) == le_bytes(samples[i] as int, 4));
    }
    assert(samples_in(bytes) =~= samples);
}

/// Part of the samples stands in part of the bytes.
pub proof fn samples_of_part(bytes: Seq<u8>, first: int, last: int)
    requires
        0 <= first <= last,
        4 * last <= bytes.len(),
    ensures
        samples_in(bytes.subrange(4 * first, 4 * last)) == samples_in(bytes).subrange(first, last),
{
    let part = bytes.subrange(4 * first, 4 * last);
    assert forall|i: int| 0 <= i < last - first implies samples_in(part)[i] == samples_in(
        bytes,
    )[first + i] by {
        assert(part.subrange(4 * i, 4 * i + 4) =~= bytes.subrange(
            4 * (first + i),
            4 * (first + i) + 4,
        ));
    }
    assert(samples_in(part) =~= samples_in(bytes).subrange(first, last));
}

/// A recording survives its file: whole frames, written behind their header, come
/// back as they were when the file is opened and its data is read.
pub proof fn recording_survives_its_file(channels: u16, frames: u64, samples: Seq<u32>)
    requires
        1 <= channels <= 32,
        frames > 0,
        samples.len() == frames * channels,
        has_header(float_bytes(channels), (channels * 4) as u16, frames),
    ensures
        ({
            let file = header_bytes(float_bytes(channels), (channels * 4) as u16, frames)
                + sample_bytes(samples);
            &&& opened(file) matches Ok(r) && r.frames == frames && r.channels == channels
                && samples_in(file.skip(r.data as int)) == samples
        }),
{
    sample_bytes_of(samples);
    assert(4 * (frames * channels) == frames * channels * 4) by (nonlinear_arith);
    let data = sample_bytes(samples);
    written_file_opens(channels, frames, data);
    samples_come_back(samples);
    float_bytes_len(channels);
    header_len(float_bytes(channels), (channels * 4) as u16, frames);
    let file = header_bytes(float_bytes(channels), (channels * 4) as u16, frames) + data;
    assert(file.skip(92) =~= data);
}

/// The least significant byte of a number comes first.
pub proof fn numbers_begin_with_their_lowest_byte(bytes: Seq<u8>)
    ensures
        bytes.len() == 2 ==> le_of(bytes) == bytes[0] + 256 * bytes[1],
        bytes.len() == 4 ==> le_of(bytes) == bytes[0] + 256 * bytes[1] + 65536 * bytes[2]
            + 16777216 * bytes[3],
        bytes.len() == 8 ==> le_of(bytes) == bytes[0] + 256 * bytes[1] + 65536 * bytes[2]
            + 16777216 * bytes[3] + 0x1_0000_0000 * (bytes[4] + 256 * bytes[5] + 65536 * bytes[6]
            + 16777216 * bytes[7]),
{
    let b1 = bytes.drop_first();
    let b2 = b1.drop_first();
    let b3 = b2.drop_first();
    let b4 = b3.drop_first();
    let b5 = b4.drop_first();
    let b6 = b5.drop_first();
    let b7 = b6.drop_first();
    let b8 = b7.drop_first();
    if bytes.len() == 2 {
        assert(le_of(b2) == 0);
        assert(le_of(b1) == bytes[1]);
    } else if bytes.len() == 4 {
        assert(le_of(b4) == 0);
        assert(le_of(b3) == bytes[3]);
        assert(le_of(b2) == bytes[2] + 256 * bytes[3]);
        assert(le_of(b1) == bytes[1] + 256 * le_of(b2));
    } else if bytes.len() == 8 {
        assert(le_of(b8) == 0);
        assert(le_of(b7) == bytes[7]);
        assert(le_of(b6) == bytes[6] + 256 * le_of(b7));
        assert(le_of(b5) == bytes[5] + 256 * le_of(b6));
        assert(le_of(b4) == bytes[4] + 256 * le_of(b5));
        assert(le_of(b3) == bytes[3] + 256 * le_of(b4));
        assert(le_of(b2) == bytes[2] + 256 * le_of(b3));
        assert(le_of(b1) == bytes[1] + 256 * le_of(b2));
    }
}

/// A sample stands in four bytes, the least significant first, and the samples follow each
/// other without a gap.
pub proof fn samples_stand_in_four_bytes(bytes: Seq<u8>, i: int)
    requires
        0 <= i,
        4 * i + 4 <= bytes.len(),
    ensures
        samples_in(bytes).len() == bytes.len() / 4,
        samples_in(bytes)[i] == bytes[4 * i] + 256 * bytes[4 * i + 1] + 65536 * bytes[4 * i + 2]
            + 16777216 * bytes[4 * i + 3],
{
    numbers_begin_with_their_lowest_byte(bytes.subrange(4 * i, 4 * i + 4));
}

/// Samples are written in the same way.
pub proof fn samples_are_written_in_four_bytes(samples: Seq<u32>, i: int)
    requires
        0 <= i < samples.len(),
    ensures
        sample_bytes(samples).len() == 4 * samples.len(),
        ({
            let b = sample_bytes(samples);
            samples[i] == b[4 * i] + 256 * b[4 * i + 1] + 65536 * b[4 * i + 2] + 16777216 * b[4 * i
                + 3]
        }),
{
    sample_bytes_of(samples);
    samples_come_back(samples);
    samples_stand_in_four_bytes(sample_bytes(samples), i);
}

/// The parts of a written file stand where readers look for them: the names of its chunks,
/// its own size, the format of floats with its sizes, the number of frames, and the size of
/// the data. A file that has outgrown 32-bit sizes has 64-bit sizes in their stead.
pub proof fn files_are_laid_out(channels: u16, frames: u64, data: Seq<u8>)
    requires
        1 <= channels <= 32,
        data.len() == frames * channels * 4,
        data.len() + 92 <= i64::MAX,
    ensures
        ({
            let file = header_bytes(float_bytes(channels), (channels * 4) as u16, frames) + data;
            let wide = data.len() + 84 >= 0xffff_ffff;
            &&& file.len() == 92 + data.len()
            &&& file.subrange(92, file.len() as int) == data
            &&& !wide ==> file.subrange(0, 4) == seq![82u8, 73, 70, 70]
            &&& !wide ==> le_of(file.subrange(4, 8)) == file.len() - 8
            &&& !wide ==> file.subrange(12, 16) == seq![74u8, 85, 78, 75]
            &&& !wide ==> le_of(file.subrange(80, 84)) == frames
            &&& !wide ==> le_of(file.subrange(88, 92)) == data.len()
            &&& wide ==> file.subrange(0, 4) == seq![82u8, 70, 54, 52]
            &&& wide ==> le_of(file.subrange(4, 8)) == 0xffff_ffff
            &&& wide ==> file.subrange(12, 16) == seq![100u8, 115, 54, 52]
            &&& wide ==> le_of(file.subrange(20, 28)) == file.len() - 8
            &&& wide ==> le_of(file.subrange(28, 36)) == data.len()
            &&& wide ==> le_of(file.subrange(36, 44)) == frames
            &&& wide ==> le_of(file.subrange(80, 84)) == 0xffff_ffff
            &&& wide ==> le_of(file.subrange(88, 92)) == 0xffff_ffff
            &&& file.subrange(8, 12) == seq![87u8, 65, 86, 69]
            &&& le_of(file.subrange(16, 20)) == 28
            &&& file.subrange(48, 52) == seq![102u8, 109, 116, 32]
            &&& le_of(file.subrange(52, 56)) == 16
            &&& file.subrange(72, 76) == seq![102u8, 97, 99, 116]
            &&& le_of(file.subrange(76, 80)) == 4
            &&& file.subrange(84, 88) == seq![100u8, 97, 116, 97]
        }),
{
    let format = float_bytes(channels);
    let align = (channels * 4) as u16;
    let file = header_bytes(format, align, frames) + data;
    let wide = is_wide(format, align, frames);
    float_bytes_len(channels);
    header_len(format, align, frames);
    parts_of_file(channels, frames, data, file);
    assert(frames * (channels * 4) == frames * channels * 4) by (nonlinear_arith);
    assert(frames <= frames * channels * 4) by (nonlinear_arith)
        requires
            channels >= 1,
    ;
    assert(file.subrange(92, file.len() as int) =~= data);
    assert forall|v: int, n: nat| #[trigger] le_bytes(v, n).len() == n by {
        le_bytes_len(v, n);
    }
    reveal_with_fuel(radix, 9);
    let count = if wide {
        0xffff_ffff
    } else {
        frames as int
    };
    le_gives_back(count, 4);
    le_gives_back(0xffff_ffff, 4);
    assert(file.subrange(80, 84) =~= le_bytes(count, 4)) by {
        assert(file =~= opening(format, align, frames) + closing(format, align, frames) + data);
        assert(closing(format, align, frames).subrange(32, 36) =~= le_bytes(count, 4));
    }
    if wide {
        assert(file.subrange(4, 8) =~= le_bytes(0xffff_ffff, 4));
    }
}

/// The format of a written file says floats of 32 bits at 48 kHz, its channels, and the
/// sizes that follow from them.
pub proof fn formats_say_what_they_are(channels: u16)
    requires
        1 <= channels <= 32,
    ensures
        ({
            let f = float_bytes(channels);
            &&& f.len() == 16
            &&& le_of(f.subrange(0, 2)) == 3
            &&& le_of(f.subrange(2, 4)) == channels
            &&& le_of(f.subrange(4, 8)) == 48000
            &&& le_of(f.subrange(8, 12)) == 192000 * channels
            &&& le_of(f.subrange(12, 14)) == 4 * channels
            &&& le_of(f.subrange(14, 16)) == 32
        }),
{
    let f = float_bytes(channels);
    float_bytes_len(channels);
    reveal_with_fuel(radix, 9);
    assert forall|v: int, n: nat| #[trigger] le_bytes(v, n).len() == n by {
        le_bytes_len(v, n);
    }
    le_gives_back(3, 2);
    le_gives_back(channels as int, 2);
    le_gives_back(48000, 4);
    le_gives_back(48000 * channels * 4, 4);
    le_gives_back(channels * 4, 2);
    le_gives_back(32, 2);
    assert(f.subrange(0, 2) =~= le_bytes(3, 2));
    assert(f.subrange(2, 4) =~= le_bytes(channels as int, 2));
    assert(f.subrange(4, 8) =~= le_bytes(48000, 4));
    assert(f.subrange(8, 12) =~= le_bytes(48000 * channels * 4, 4));
    assert(f.subrange(12, 14) =~= le_bytes(channels * 4, 2));
    assert(f.subrange(14, 16) =~= le_bytes(32, 2));
}

/// A file can be written as long as its frames have a size and an even format, and its end
/// can be told in a signed 64-bit number.
pub proof fn headers_can_be_written(format: Seq<u8>, align: u16, frames: u64)
    requires
        format.len() <= 4096,
    ensures
        has_header(format, align, frames) <==> align > 0 && format.len() % 2 == 0 && frames * align
            + 76 + format.len() <= i64::MAX,
{
    let room = i64::MAX - (76 + format.len());
    if align > 0 {
        assert(frames <= room / align as int <==> frames * align <= room) by (nonlinear_arith)
            requires
                align > 0,
                room >= 0,
        ;
    }
}

/// What a file begins with: it is one of floats in chunks, and one with 32-bit sizes is as
/// long as it says.
pub proof fn files_begin_as_they_are(size: u64, head: Seq<u8>)
    requires
        head.len() == 12,
    ensures
        begun(size, head) is Ok <==> head.subrange(8, 12) == seq![87u8, 65, 86, 69] && (
        head.subrange(0, 4) == seq![82u8, 70, 54, 52] || (head.subrange(0, 4) == seq![
            82u8,
            73,
            70,
            70,
        ] && le_of(head.subrange(4, 8)) == size - 8)),
        begun(size, head) matches Ok(s) ==> {
            &&& s.size == size && s.at == 12
            &&& s.rf64 <==> head.subrange(0, 4) == seq![82u8, 70, 54, 52]
            &&& !s.fmt && !s.data && !s.ds
        },
{
    assert(seq![82u8, 70, 54, 52][1] != seq![82u8, 73, 70, 70][1]);
}

/// A chunk is as long as its head says, and the next one begins behind it at an even place.
/// It lies in the file. What was known of other chunks stays.
pub proof fn chunks_follow_each_other(s: Scan, ch: Seq<u8>, body: Seq<u8>)
    requires
        s.wf(),
        ch.len() == 8,
        body_length(s, ch) is Ok,
        stepped(s, ch, body) is Ok,
        ch.subrange(0, 4) != seq![100u8, 97, 116, 97] || !s.rf64,
    ensures
        ({
            let n = stepped(s, ch, body)->Ok_0;
            let len = le_of(ch.subrange(4, 8));
            let tag = ch.subrange(0, 4);
            &&& n.at == s.at + 8 + len + len % 2
            &&& n.at <= s.size
            &&& n.size == s.size && n.rf64 == s.rf64
            &&& tag != seq![100u8, 97, 116, 97] ==> n.data == s.data && n.data_at == s.data_at
                && n.data_size == s.data_size
            &&& tag != seq![102u8, 109, 116, 32] ==> n.fmt == s.fmt && n.channels == s.channels
                && n.sample_rate == s.sample_rate
            &&& tag != seq![100u8, 115, 54, 52] ==> n.ds == s.ds && n.rf_data == s.rf_data
                && n.rf_frames == s.rf_frames
        }),
{
    numbers_begin_with_their_lowest_byte(ch.subrange(4, 8));
    assert(seq![100u8, 97, 116, 97][1] == 97 && seq![102u8, 109, 116, 32][1] == 109 && seq![
        100u8,
        115,
        54,
        52,
    ][1] == 115);
}

/// The data stands behind the head of its chunk; where a file has 64-bit sizes and the head
/// does not say its length, the sizes do. There is only one data chunk.
pub proof fn data_stands_in_its_chunk(s: Scan, ch: Seq<u8>, body: Seq<u8>)
    requires
        s.wf(),
        ch.len() == 8,
        ch.subrange(0, 4) == seq![100u8, 97, 116, 97],
    ensures
        ({
            let said = le_of(ch.subrange(4, 8));
            let len = if s.rf64 && said == 0xffff_ffff {
                s.rf_data as int
            } else {
                said
            };
            &&& body_length(s, ch) is Ok <==> !s.data && (s.rf64 && said == 0xffff_ffff ==> s.ds)
                && s.at + 8 + len + len % 2 <= s.size
            &&& body_length(s, ch) is Ok ==> (stepped(s, ch, body) matches Ok(n) && n.data
                && n.data_at == s.at + 8 && n.data_size == len && n.at == s.at + 8 + len + len % 2)
        }),
{
    numbers_begin_with_their_lowest_byte(ch.subrange(4, 8));
    assert(seq![100u8, 97, 116, 97][1] == 97 && seq![102u8, 109, 116, 32][1] == 109 && seq![
        100u8,
        115,
        54,
        52,
    ][1] == 115);
}

/// A format is taken exactly where it says floats of 32 bits at 48 kHz in 1 to 32 channels,
/// with the sizes that follow from them; it has these channels. One in the extended form
/// says so once more.
pub proof fn formats_are_taken_as_they_are(s: Scan, ch: Seq<u8>, body: Seq<u8>)
    requires
        s.wf(),
        ch.len() == 8,
        ch.subrange(0, 4) == seq![102u8, 109, 116, 32],
        16 <= body.len() <= 4096,
    ensures
        ({
            let code = body[0] + 256 * body[1];
            let channels = body[2] + 256 * body[3];
            &&& stepped(s, ch, body) matches Ok(n) ==> {
                &&& n.fmt && n.channels == channels && n.sample_rate == 48000
                &&& 1 <= channels <= 32
                &&& code == 3 || (code == 0xfffe && body.len() >= 40 && body[24] == 3 && body[18]
                    + 256 * body[19] == 32)
                &&& le_of(body.subrange(4, 8)) == 48000
                &&& le_of(body.subrange(8, 12)) == 192000 * channels
                &&& body[12] + 256 * body[13] == 4 * channels
                &&& body[14] + 256 * body[15] == 32
            }
            &&& code == 3 && 1 <= channels <= 32 && le_of(body.subrange(4, 8)) == 48000 && le_of(
                body.subrange(8, 12),
            ) == 192000 * channels && body[12] + 256 * body[13] == 4 * channels && body[14] + 256
                * body[15] == 32 ==> stepped(s, ch, body) is Ok
        }),
{
    assert(seq![100u8, 97, 116, 97][1] == 97 && seq![102u8, 109, 116, 32][1] == 109 && seq![
        100u8,
        115,
        54,
        52,
    ][1] == 115);
    numbers_begin_with_their_lowest_byte(body.subrange(0, 2));
    numbers_begin_with_their_lowest_byte(body.subrange(2, 4));
    numbers_begin_with_their_lowest_byte(body.subrange(12, 14));
    numbers_begin_with_their_lowest_byte(body.subrange(14, 16));
    if body.len() >= 40 {
        numbers_begin_with_their_lowest_byte(body.subrange(18, 20));
        if body.subrange(24, 40) == float_guid() {
            assert(body.subrange(24, 40)[0] == 3);
        }
    }
}

/// The 64-bit sizes are taken exactly where they give the file's own length and name no
/// further sizes; the data's length and the number of frames are the two that follow.
pub proof fn wide_sizes_are_taken_as_they_are(s: Scan, ch: Seq<u8>, body: Seq<u8>)
    requires
        s.wf(),
        ch.len() == 8,
        ch.subrange(0, 4) == seq![100u8, 115, 54, 52],
        body.len() == 28,
    ensures
        stepped(s, ch, body) is Ok <==> le_of(body.subrange(0, 8)) + 8 == s.size && le_of(
            body.subrange(24, 28),
        ) == 0,
        stepped(s, ch, body) matches Ok(n) ==> n.ds && n.rf_data == le_of(body.subrange(8, 16))
            && n.rf_frames == le_of(body.subrange(16, 24)),
{
    numbers_begin_with_their_lowest_byte(body.subrange(8, 16));
    numbers_begin_with_their_lowest_byte(body.subrange(16, 24));
}

/// What a file holds: its data is whole frames of four bytes for each channel, and there is
/// at least one. Where the file has 64-bit sizes they name as many.
pub proof fn frames_fill_the_data(s: Scan)
    requires
        s.wf(),
    ensures
        concluded(s) matches Ok(r) ==> {
            &&& r.frames >= 1
            &&& r.frames * (r.channels * 4) == s.data_size
            &&& r.data == s.data_at && r.channels == s.channels && r.sample_rate == 48000
            &&& s.fmt && s.data
            &&& s.rf64 ==> s.ds && s.rf_frames == r.frames
        },
        s.fmt && s.data && !s.rf64 && s.data_size > 0 && s.data_size as int % (s.channels * 4) == 0
            ==> concluded(s) is Ok,
{
    if concluded(s) is Ok {
        let a = s.channels * 4;
        let n = s.data_size as int;
        assert((n / a) * a == n && n / a >= 1 && n / a <= n) by (nonlinear_arith)
            requires
                a >= 4,
                n % a == 0,
                n > 0,
        ;
    }
}

} // verus!
