//! Processing a recording again: the lines of its logs, the clock of its audio, and
//! the events that go with each packet.
use crate::codec;
use crate::json;
use crate::json::{Json, Tree};
use crate::text::{same, utf8};
use vstd::prelude::*;
use vstd::slice::slice_subrange;
use vstd::utf8::*;

verus! {

broadcast use vstd::string::group_string_axioms;

/// How long a line of a log may be.
pub const LINE_BYTES: usize = 0x40_0000;

/// Where the first line of some bytes ends, behind its line feed, or the end.
pub open spec fn line_end(bytes: Seq<u8>, at: int) -> int
    decreases bytes.len() - at,
{
    if at >= bytes.len() {
        at
    } else if bytes[at] == 10 {
        at + 1
    } else {
        line_end(bytes, at + 1)
    }
}

/// A line that is being read.
#[derive(Debug)]
pub struct Line {
    bytes: Vec<u8>,
}

/// A line took more than it may.
#[derive(Clone, Copy, PartialEq, Eq, Structural, Debug)]
pub struct TooLong;

/// What belongs to a line of the bytes that come next: how many, whether the line ends with
/// them, and the line then.
pub open spec fn extended(line: Seq<u8>, next: Seq<u8>) -> Result<(int, bool, Seq<u8>), TooLong> {
    let n = line_end(next, 0);
    if line.len() + n > LINE_BYTES {
        Err(TooLong)
    } else {
        Ok((n, next[n - 1] == 10, line + next.take(n)))
    }
}

impl Line {
    /// What has been read of the line.
    pub closed spec fn content(&self) -> Seq<u8> {
        self.bytes@
    }

    pub closed spec fn wf(&self) -> bool {
        self.bytes@.len() <= LINE_BYTES
    }

    pub fn new() -> (line: Line)
        ensures
            line.wf(),
            line.content() == Seq::<u8>::empty(),
    {
        Line { bytes: Vec::new() }
    }

    /// Takes what belongs to the line from the bytes that come next: how many that
    /// are, and whether the line ends with them.
    pub fn take(&mut self, next: &[u8]) -> (res: Result<(usize, bool), TooLong>)
        requires
            old(self).wf(),
            next@.len() > 0,
        ensures
            final(self).wf(),
            match extended(old(self).content(), next@) {
                Err(_) => res is Err && final(self).content() == old(self).content(),
                Ok(r) => {
                    &&& res matches Ok(taken)
                    &&& taken.0 == r.0 && taken.1 == r.1
                    &&& final(self).content() == r.2
                    &&& 0 < r.0 <= next@.len()
                },
            },
    {
        let mut n: usize = 0;
        while n < next.len() && next[n] != 10
            invariant
                n <= next.len(),
                line_end(next@, 0) == line_end(next@, n as int),
                forall|k: int| 0 <= k < n ==> next@[k] != 10,
            decreases next.len() - n,
        {
            n += 1;
        }
        let done = n < next.len();
        if done {
            n += 1;
        } else {
            assert(line_end(next@, n as int) == n);
        }
        if n > LINE_BYTES - self.bytes.len() {
            return Err(TooLong);
        }
        let part = slice_subrange(next, 0, n);
        self.bytes.extend_from_slice(part);
        assert(part@ =~= next@.take(n as int));
        Ok((n, done))
    }

    /// Whether nothing has been read.
    pub fn is_empty(&self) -> (res: bool)
        ensures
            res == (self.content().len() == 0),
    {
        self.bytes.len() == 0
    }

    /// Whether the line holds only white space.
    pub fn is_blank(&self) -> (res: bool)
        ensures
            res == is_blank(self.content()),
    {
        let mut i: usize = 0;
        while i < self.bytes.len()
            invariant
                i <= self.bytes.len(),
                forall|k: int| 0 <= k < i ==> is_white(#[trigger] self.bytes@[k]),
            decreases self.bytes.len() - i,
        {
            let b: u8 = self.bytes[i];
            if !(b == 32 || b == 9 || b == 10 || b == 12 || b == 13) {
                assert(!is_white(self.bytes@[i as int]));
                return false;
            }
            i += 1;
        }
        true
    }

    /// The document that the line holds, if it is one.
    pub fn document(&self) -> (res: Option<Json>)
        ensures
            res is Some <==> json::document_in(self.content()) is Some,
            res matches Some(json) ==> json::document_in(self.content()) == Some(json@),
    {
        json::parse_bytes(&self.bytes)
    }
}

/// ASCII white space.
pub open spec fn is_white(b: u8) -> bool {
    b == 32 || b == 9 || b == 10 || b == 12 || b == 13
}

/// Bytes that are all white space.
pub open spec fn is_blank(line: Seq<u8>) -> bool {
    forall|i: int| 0 <= i < line.len() ==> is_white(#[trigger] line[i])
}

/// Why a recording cannot be processed again.
#[derive(Clone, Copy, PartialEq, Eq, Structural, Debug)]
pub enum RowError {
    /// The frame of a packet is missing.
    Frame,
    /// The length of a packet is missing.
    Count,
    /// The packets do not follow each other, or are not all there.
    Frames,
    /// The flags of a packet are missing.
    Flags,
    /// The flags of a packet are none.
    FlagRange,
    /// The time of a packet is missing.
    Time,
    /// The time of a packet is beyond all times.
    Clock,
    /// The place of a packet on the device is missing.
    Device,
    /// The time of an event is missing.
    EventTime,
    /// The answer of an observation is missing.
    Response,
    /// The answer of an observation is not base64.
    Base64,
    /// The answer of an observation is no text.
    Utf8,
}

/// A packet by its row in the clock: its frames, its flags, its time, and up to when
/// events count for it.
#[derive(Clone, Copy, PartialEq, Eq, Structural, Debug)]
pub struct ClockRow {
    pub first: u64,
    pub count: u32,
    pub flags: u32,
    pub at: i64,
    pub until: i64,
}

/// A packet by its row, where it follows so many frames of a recording of so many. A
/// packet whose time cannot be trusted may have none.
pub open spec fn clock_row(row: Tree, expected: u64, total: u64) -> Result<ClockRow, RowError> {
    match row.unsigned_at("file_frame_start"@) {
        None => Err(RowError::Frame),
        Some(first) => match row.unsigned_at("frames"@) {
            None => Err(RowError::Count),
            Some(count) => if first != expected || !(0 < count <= 480000) || first + count > total {
                Err(RowError::Frames)
            } else {
                match row.unsigned_at("flags"@) {
                    None => Err(RowError::Flags),
                    Some(flags) => if flags > u32::MAX {
                        Err(RowError::FlagRange)
                    } else {
                        let time = row.signed_at("recorded_time_ns"@);
                        if time is None && flags / 4 % 2 == 0 {
                            Err(RowError::Time)
                        } else {
                            let at = match time {
                                Some(t) => t,
                                None => 0,
                            };
                            if at + 100_000_000 > i64::MAX {
                                Err(RowError::Clock)
                            } else {
                                Ok(
                                    ClockRow {
                                        first,
                                        count: count as u32,
                                        flags: flags as u32,
                                        at,
                                        until: (at + 100_000_000) as i64,
                                    },
                                )
                            }
                        }
                    },
                }
            },
        },
    }
}

/// A packet by its row.
pub fn read_clock_row(row: &Json, expected: u64, total: u64) -> (res: Result<ClockRow, RowError>)
    ensures
        res == clock_row(row@, expected, total),
{
    let first: u64 = match row.unsigned_at("file_frame_start") {
        Some(n) => n,
        None => {
            return Err(RowError::Frame);
        },
    };
    let count: u64 = match row.unsigned_at("frames") {
        Some(n) => n,
        None => {
            return Err(RowError::Count);
        },
    };
    if first != expected || count == 0 || count > 480000 || first > total || count > total - first {
        return Err(RowError::Frames);
    }
    let flags: u64 = match row.unsigned_at("flags") {
        Some(n) => n,
        None => {
            return Err(RowError::Flags);
        },
    };
    if flags > 0xffff_ffff {
        return Err(RowError::FlagRange);
    }
    let at: i64 = match row.signed_at("recorded_time_ns") {
        Some(t) => t,
        None => {
            if flags / 4 % 2 == 0 {
                return Err(RowError::Time);
            }
            0
        },
    };
    if at > 0x7fff_ffff_ffff_ffff - 100_000_000 {
        return Err(RowError::Clock);
    }
    Ok(
        ClockRow {
            first,
            count: count as u32,
            flags: flags as u32,
            at,
            until: at + 100_000_000,
        },
    )
}

/// Where a packet stands on the device.
pub fn device_position(row: &Json) -> (res: Result<u64, RowError>)
    ensures
        res == (match row@.unsigned_at("device_position_frames"@) {
            Some(n) => Ok::<_, RowError>(n),
            None => Err(RowError::Device),
        }),
{
    match row.unsigned_at("device_position_frames") {
        Some(n) => Ok(n),
        None => Err(RowError::Device),
    }
}

/// When an event was received.
pub fn event_time(row: &Json) -> (res: Result<i64, RowError>)
    ensures
        res == (match row@.signed_at("receive_time_ns"@) {
            Some(t) => Ok::<_, RowError>(t),
            None => Err(RowError::EventTime),
        }),
{
    match row.signed_at("receive_time_ns") {
        Some(t) => Ok(t),
        None => Err(RowError::EventTime),
    }
}

/// Where the next event comes from.
#[derive(Clone, Copy, PartialEq, Eq, Structural, Debug)]
pub enum Source {
    /// From what was observed at the start.
    Bootstrap,
    /// From the log.
    Log,
    /// There is none for this packet.
    Neither,
}

/// Where the next event comes from that counts up to a time: the earlier of the two,
/// and the log where both have one time.
pub open spec fn next_source(log: Option<i64>, bootstrap: Option<i64>, until: i64) -> Source {
    if bootstrap is Some && bootstrap->0 <= until && (log is None || bootstrap->0 < log->0) {
        Source::Bootstrap
    } else if log is Some && log->0 <= until {
        Source::Log
    } else {
        Source::Neither
    }
}

/// Where the next event comes from that counts up to a time.
pub fn choose_source(log: Option<i64>, bootstrap: Option<i64>, until: i64) -> (res: Source)
    ensures
        res == next_source(log, bootstrap, until),
{
    let boot_first = match bootstrap {
        Some(b) => b <= until && match log {
            Some(l) => b < l,
            None => true,
        },
        None => false,
    };
    if boot_first {
        return Source::Bootstrap;
    }
    match log {
        Some(l) => if l <= until {
            Source::Log
        } else {
            Source::Neither
        },
        None => Source::Neither,
    }
}

/// Events come in the order of their times: what is taken next is no later than what
/// is left, and counts for the packet; and nothing is left that does, once neither is
/// taken.
pub proof fn merging_keeps_the_order(log: Option<i64>, bootstrap: Option<i64>, until: i64)
    ensures
        next_source(log, bootstrap, until) == Source::Bootstrap ==> bootstrap is Some
            && bootstrap->0 <= until && (log is Some ==> bootstrap->0 < log->0),
        next_source(log, bootstrap, until) == Source::Log ==> log is Some && log->0 <= until && (
        bootstrap is Some ==> log->0 <= bootstrap->0),
        next_source(log, bootstrap, until) == Source::Neither ==> (log is Some ==> log->0 > until)
            && (bootstrap is Some ==> bootstrap->0 > until),
{
}

/// How often an event of the log was earlier than one before it.
#[derive(Clone, Copy, PartialEq, Eq, Structural, Debug)]
pub struct Reorders {
    pub latest: i64,
    pub count: u64,
}

/// The count after an event of the log.
pub open spec fn counted(r: Reorders, at: i64) -> Reorders {
    Reorders {
        latest: if at > r.latest {
            at
        } else {
            r.latest
        },
        count: (r.count + if at < r.latest {
            1int
        } else {
            0
        }) as u64,
    }
}

impl Reorders {
    pub fn new() -> (r: Reorders)
        ensures
            r.latest == -1,
            r.count == 0,
    {
        Reorders { latest: -1, count: 0 }
    }

    /// An event of the log has come.
    pub fn seen(&mut self, at: i64)
        requires
            old(self).count < u64::MAX,
        ensures
            *final(self) == counted(*old(self), at),
    {
        if at < self.latest {
            self.count = self.count + 1;
        }
        if at > self.latest {
            self.latest = at;
        }
    }
}

/// A recording that is processed again: how many frames it has, how far it has come, and
/// how many packets that were.
#[derive(Clone, Copy, PartialEq, Eq, Structural, Debug)]
pub struct Replay {
    pub total: u64,
    pub expected: u64,
    pub packets: u64,
}

impl Replay {
    pub open spec fn wf(self) -> bool {
        self.expected <= self.total && self.packets <= self.expected
    }

    pub fn new(total: u64) -> (r: Replay)
        ensures
            r.wf(),
            r == (Replay { total, expected: 0, packets: 0 }),
    {
        Replay { total, expected: 0, packets: 0 }
    }

    /// The packet of the next row of the clock.
    pub fn row(&self, row: &Json) -> (res: Result<ClockRow, RowError>)
        ensures
            res == clock_row(row@, self.expected, self.total),
    {
        read_clock_row(row, self.expected, self.total)
    }

    /// A packet has been processed; gives whether it is time to say so.
    pub fn done(&mut self, packet: ClockRow) -> (tell: bool)
        requires
            old(self).wf(),
            packet.first == old(self).expected,
            0 < packet.count,
            packet.first + packet.count <= old(self).total,
        ensures
            final(self).wf(),
            *final(self) == after_packet(*old(self), packet),
            tell == (final(self).packets % 100 == 0),
    {
        self.expected = self.expected + packet.count as u64;
        self.packets = self.packets + 1;
        self.packets % 100 == 0
    }
}

/// How far a replay has come once a packet has been processed.
pub open spec fn after_packet(r: Replay, packet: ClockRow) -> Replay {
    Replay {
        total: r.total,
        expected: (r.expected + packet.count) as u64,
        packets: (r.packets + 1) as u64,
    }
}

/// How far a replay has come after the first `n` rows of a clock, if none was refused.
pub open spec fn after_rows(total: u64, rows: Seq<Tree>, n: nat) -> Option<Replay>
    decreases n,
{
    if n == 0 {
        Some(Replay { total, expected: 0, packets: 0 })
    } else {
        match after_rows(total, rows, (n - 1) as nat) {
            None => None,
            Some(r) => match clock_row(rows[n - 1], r.expected, r.total) {
                Err(_) => None,
                Ok(packet) => Some(after_packet(r, packet)),
            },
        }
    }
}

/// A clock that is not refused leaves out no frame and has none twice: each packet
/// begins where the one before it ended, and all of them together are as long as what
/// has been processed, which is never more than there is.
pub proof fn clock_leaves_out_nothing(total: u64, rows: Seq<Tree>, n: nat)
    requires
        n <= rows.len(),
        after_rows(total, rows, n) is Some,
    ensures
        ({
            let r = after_rows(total, rows, n)->0;
            &&& r.wf()
            &&& r.packets == n
            &&& r.total == total
        }),
        n > 0 ==> ({
            let before = after_rows(total, rows, (n - 1) as nat)->0;
            let packet = clock_row(rows[n - 1], before.expected, total)->Ok_0;
            &&& after_rows(total, rows, (n - 1) as nat) is Some
            &&& packet.first == before.expected
            &&& packet.count > 0
            &&& after_rows(total, rows, n)->0.expected == before.expected + packet.count
        }),
    decreases n,
{
    if n > 0 {
        clock_leaves_out_nothing(total, rows, (n - 1) as nat);
    }
}

/// A row without the time that cannot be trusted stands for the same packet.
pub open spec fn says_the_same(row: Tree, other: Tree) -> bool {
    &&& row.unsigned_at("file_frame_start"@) == other.unsigned_at("file_frame_start"@)
    &&& row.unsigned_at("frames"@) == other.unsigned_at("frames"@)
    &&& row.unsigned_at("flags"@) == other.unsigned_at("flags"@)
    &&& row.unsigned_at("flags"@) matches Some(flags) && flags / 4 % 2 == 1
    &&& row.signed_at("recorded_time_ns"@) matches Some(t) ==> t + 100_000_000 <= i64::MAX
    &&& other.signed_at("recorded_time_ns"@) matches Some(t) ==> t + 100_000_000 <= i64::MAX
}

/// A recording whose packet lacks a time that could not be trusted anyway is processed as
/// it is with that time: the packet begins and ends at the same frames, and so does every
/// packet after it.
pub proof fn untrusted_time_may_be_missing(
    total: u64,
    rows: Seq<Tree>,
    n: nat,
    k: int,
    other: Tree,
)
    requires
        n <= rows.len(),
        0 <= k < rows.len(),
        says_the_same(rows[k], other),
    ensures
        after_rows(total, rows.update(k, other), n) == after_rows(total, rows, n),
    decreases n,
{
    if n > 0 {
        untrusted_time_may_be_missing(total, rows, (n - 1) as nat, k, other);
    }
}

/// What was observed at the start: when it was asked for and answered, and the answer.
#[derive(Debug)]
pub struct Observation {
    pub at: i64,
    pub request_start: Option<i64>,
    pub body: String,
}

/// The answer that bytes are, if an observation counts at all.
pub open spec fn observed(row: Tree) -> Result<Option<Seq<char>>, RowError> {
    if row.unsigned_at("http_status"@) != Some(200u64) {
        Ok(None)
    } else {
        match row.text_at("response_base64"@) {
            None => Err(RowError::Response),
            Some(text) => match codec::decoded(text) {
                None => Err(RowError::Base64),
                Some(bytes) => if !valid_utf8(bytes) {
                    Err(RowError::Utf8)
                } else if row.signed_at("response_end_ns"@) is None {
                    Err(RowError::EventTime)
                } else {
                    Ok(Some(decode_utf8(bytes)))
                },
            },
        }
    }
}

/// The text that an answer is.
pub fn answer_text(bytes: &[u8]) -> (res: Result<String, RowError>)
    ensures
        valid_utf8(bytes@) ==> (res matches Ok(s) && s@ == decode_utf8(bytes@)),
        !valid_utf8(bytes@) ==> res == Err::<String, _>(RowError::Utf8),
{
    match utf8(bytes) {
        Some(s) => Ok(s),
        None => Err(RowError::Utf8),
    }
}

/// What was observed at the start, if it was answered.
pub fn observation(row: &Json) -> (res: Result<Option<Observation>, RowError>)
    ensures
        res matches Err(e) ==> observed(row@) == Err::<Option<Seq<char>>, _>(e),
        res matches Ok(None) ==> observed(row@) == Ok::<Option<Seq<char>>, RowError>(None),
        res matches Ok(Some(o)) ==> observed(row@) == Ok::<_, RowError>(Some(o.body@))
            && row@.signed_at("response_end_ns"@) == Some(o.at) && row@.signed_at(
            "request_start_ns"@,
        ) == o.request_start,
{
    let counts = match row.unsigned_at("http_status") {
        Some(n) => n == 200,
        None => false,
    };
    if !counts {
        return Ok(None);
    }
    let text = match row.text_at("response_base64") {
        Some(text) => text,
        None => {
            return Err(RowError::Response);
        },
    };
    let bytes = match codec::decode(text) {
        Some(bytes) => bytes,
        None => {
            return Err(RowError::Base64);
        },
    };
    let body = match answer_text(&bytes) {
        Ok(body) => body,
        Err(e) => {
            return Err(e);
        },
    };
    match row.signed_at("response_end_ns") {
        Some(at) => Ok(
            Some(Observation { at, request_start: row.signed_at("request_start_ns"), body }),
        ),
        None => Err(RowError::EventTime),
    }
}

/// The files that a recording is processed from, and one that counts if it is there.
pub open spec fn inputs_of(legacy: bool) -> (Seq<Seq<char>>, Seq<char>) {
    (
        seq![
            "raw/microphone.wav"@,
            "raw/audio.clock.jsonl"@,
            if legacy {
                "raw/osc.jsonl"@
            } else {
                "raw/osc.events.jsonl"@
            },
        ],
        if legacy {
            "raw/osc.query-state.json"@
        } else {
            "raw/pose-bootstrap.json"@
        },
    )
}

/// The files that a recording is processed from, and one that counts if it is there.
pub fn inputs(legacy: bool) -> (res: (Vec<&'static str>, &'static str))
    ensures
        res.0@.len() == 3,
        forall|i: int| 0 <= i < 3 ==> (#[trigger] res.0@[i])@ == inputs_of(legacy).0[i],
        res.1@ == inputs_of(legacy).1,
{
    let mut list: Vec<&'static str> = Vec::new();
    list.push("raw/microphone.wav");
    list.push("raw/audio.clock.jsonl");
    list.push(
        if legacy {
            "raw/osc.jsonl"
        } else {
            "raw/osc.events.jsonl"
        },
    );
    let extra: &'static str = if legacy {
        "raw/osc.query-state.json"
    } else {
        "raw/pose-bootstrap.json"
    };
    (list, extra)
}

/// How a recording that was processed again turned out.
#[derive(Clone, Copy, PartialEq, Eq, Structural, Debug)]
pub enum Verdict {
    Complete,
    /// Audio is left without a clock.
    Unclocked,
    /// Nothing of it could be placed.
    Unplaced,
    /// The recording has changed meanwhile.
    Changed,
}

/// How a recording that was processed again turned out.
pub open spec fn verdict_of(
    processed: u64,
    total: u64,
    output_frames: u64,
    muted_frames: u64,
    unchanged: bool,
) -> Verdict {
    if processed != total {
        Verdict::Unclocked
    } else if output_frames == muted_frames {
        Verdict::Unplaced
    } else if !unchanged {
        Verdict::Changed
    } else {
        Verdict::Complete
    }
}

/// How a recording that was processed again turned out: all of its frames were, not all
/// of the output is silent, and its files are what they were.
pub fn verdict(
    processed: u64,
    total: u64,
    output_frames: u64,
    muted_frames: u64,
    unchanged: bool,
) -> (res: Verdict)
    ensures
        res == verdict_of(processed, total, output_frames, muted_frames, unchanged),
{
    if processed != total {
        Verdict::Unclocked
    } else if output_frames == muted_frames {
        Verdict::Unplaced
    } else if !unchanged {
        Verdict::Changed
    } else {
        Verdict::Complete
    }
}

/// Whether files are what they were: each has the digest that it had.
pub fn unchanged(before: &Vec<String>, after: &Vec<String>) -> (res: bool)
    ensures
        res == (before.len() == after.len() && forall|i: int|
            0 <= i < before.len() ==> (#[trigger] before@[i])@ == after@[i]@),
{
    if before.len() != after.len() {
        return false;
    }
    let mut i: usize = 0;
    while i < before.len()
        invariant
            before.len() == after.len(),
            i <= before.len(),
            forall|k: int| 0 <= k < i ==> (#[trigger] before@[k])@ == after@[k]@,
        decreases before.len() - i,
    {
        if !same(&before[i], &after[i]) {
            assert(before@[i as int]@ != after@[i as int]@);
            return false;
        }
        i += 1;
    }
    true
}

/// A file has the digest that its manifest gives for it.
pub open spec fn sealed(manifest: Tree, name: Seq<char>, digest: Seq<char>) -> bool {
    match manifest.get("files"@) {
        Some(files) => files.text_at(name) == Some(digest),
        None => false,
    }
}

/// Whether a file has the digest that its manifest gives for it.
pub fn is_sealed(manifest: &Json, name: &str, digest: &str) -> (res: bool)
    ensures
        res == sealed(manifest@, name@, digest@),
{
    match manifest.get("files") {
        Some(files) => match files.text_at(name) {
            Some(given) => same(given, digest),
            None => false,
        },
        None => false,
    }
}

/// What a recording that could not be processed again is called.
pub fn failed_status(cancelled: bool) -> (res: &'static str)
    ensures
        res@ == (if cancelled {
            "cancelled"@
        } else {
            "failed"@
        }),
{
    if cancelled {
        "cancelled"
    } else {
        "failed"
    }
}

/// A line ends behind the first line feed; before that it is all that comes.
pub proof fn lines_end_with_a_line_feed(line: Seq<u8>, next: Seq<u8>)
    requires
        next.len() > 0,
    ensures
        extended(line, next) matches Ok(r) ==> {
            &&& 0 < r.0 <= next.len()
            &&& r.1 ==> next[r.0 - 1] == 10
            &&& !r.1 ==> r.0 == next.len()
            &&& forall|i: int| 0 <= i < r.0 - 1 ==> next[i] != 10
            &&& !r.1 ==> next.last() != 10
            &&& r.2.len() == line.len() + r.0
            &&& r.2 == line + next.take(r.0)
        },
        line.len() + next.len() <= 4 * 1024 * 1024 ==> extended(line, next) is Ok,
        extended(line, next) is Err ==> line.len() + next.len() > 4 * 1024 * 1024,
{
    ends_lie_ahead(next, 0);
}

proof fn ends_lie_ahead(bytes: Seq<u8>, at: int)
    requires
        0 <= at <= bytes.len(),
    ensures
        at <= line_end(bytes, at) <= bytes.len(),
        at < bytes.len() ==> at < line_end(bytes, at),
        forall|i: int| at <= i < line_end(bytes, at) - 1 ==> bytes[i] != 10,
        line_end(bytes, at) > at && bytes[line_end(bytes, at) - 1] != 10 ==> line_end(bytes, at)
            == bytes.len(),
    decreases bytes.len() - at,
{
    if at < bytes.len() && bytes[at] != 10 {
        ends_lie_ahead(bytes, at + 1);
    }
}

/// Blank lines hold spaces, tabs and what ends lines or pages, and nothing else.
pub proof fn blank_lines_hold_white_space(line: Seq<u8>, b: u8)
    ensures
        is_white(b) <==> b == 9 || b == 10 || b == 12 || b == 13 || b == 32,
        is_blank(Seq::empty()),
        is_blank(line.push(b)) <==> is_blank(line) && is_white(b),
{
    if is_blank(line.push(b)) {
        assert(line.push(b)[line.len() as int] == b);
        assert forall|i: int| 0 <= i < line.len() implies is_white(#[trigger] line[i]) by {
            assert(line.push(b)[i] == line[i]);
        }
    }
}

/// A row of the clock stands for the packet that it names: it begins where the last one
/// ended, has 1 to 480000 frames, ends in the recording, and has a time unless it says that
/// its time counts for nothing. Events count for it up to a tenth of a second later.
pub proof fn rows_name_their_packet(row: Tree, expected: u64, total: u64)
    ensures
        clock_row(row, expected, total) matches Ok(r) ==> {
            &&& row.unsigned_at("file_frame_start"@) == Some(r.first)
            &&& row.unsigned_at("frames"@) == Some(r.count as u64)
            &&& row.unsigned_at("flags"@) == Some(r.flags as u64)
            &&& r.first == expected
            &&& 1 <= r.count <= 480_000
            &&& r.first + r.count <= total
            &&& row.signed_at("recorded_time_ns"@) matches Some(t) ==> r.at == t
            &&& row.signed_at("recorded_time_ns"@) is None ==> r.at == 0 && r.flags / 4 % 2 == 1
            &&& r.until == r.at + 100_000_000
        },
        ({
            let first = row.unsigned_at("file_frame_start"@);
            let count = row.unsigned_at("frames"@);
            let flags = row.unsigned_at("flags"@);
            let time = row.signed_at("recorded_time_ns"@);
            first == Some(expected) && count is Some && 0 < count->0 <= 480_000 && expected
                + count->0 <= total && flags is Some && flags->0 < 0x1_0000_0000 && time is Some
                && time->0 <= i64::MAX - 100_000_000
        }) ==> clock_row(row, expected, total) is Ok,
        row.unsigned_at("file_frame_start"@) is None ==> clock_row(row, expected, total) == Err::<
            ClockRow,
            _,
        >(RowError::Frame),
        clock_row(row, expected, total) == Err::<ClockRow, _>(RowError::Time) ==> row.signed_at(
            "recorded_time_ns"@,
        ) is None,
        clock_row(row, expected, total) == Err::<ClockRow, _>(RowError::Count) ==> row.unsigned_at(
            "frames"@,
        ) is None,
        clock_row(row, expected, total) == Err::<ClockRow, _>(RowError::Flags) ==> row.unsigned_at(
            "flags"@,
        ) is None,
{
}

/// Events come from where they are earlier; where both come at once, from the log.
pub proof fn the_log_comes_first(log: i64, bootstrap: i64, until: i64)
    ensures
        next_source(Some(log), Some(log), until) != Source::Bootstrap,
        bootstrap < log && bootstrap <= until ==> next_source(Some(log), Some(bootstrap), until)
            == Source::Bootstrap,
        log <= bootstrap && log <= until ==> next_source(Some(log), Some(bootstrap), until)
            == Source::Log,
        next_source(Some(log), None, until) == Source::Log <==> log <= until,
        next_source(None, Some(bootstrap), until) == Source::Bootstrap <==> bootstrap <= until,
        next_source(None, None, until) == Source::Neither,
{
}

/// An event counts as reordered exactly where a later one came before it; the latest time is
/// never earlier than any that was seen.
pub proof fn reorders_are_counted(r: Reorders, at: i64, next: i64)
    requires
        r.count <= u64::MAX - 2,
    ensures
        counted(r, at).count == r.count + 1 <==> at < r.latest,
        counted(r, at).count == r.count <==> at >= r.latest,
        counted(r, at).latest >= at && counted(r, at).latest >= r.latest,
        counted(r, at).latest == at || counted(r, at).latest == r.latest,
        next < at ==> counted(counted(r, at), next).count == counted(r, at).count + 1,
{
}

/// A replay is complete exactly where all its frames were processed, not all of its output is
/// silent, and its files are what they were; the first of these that fails is the verdict.
pub proof fn replays_are_judged_in_order(
    processed: u64,
    total: u64,
    output: u64,
    muted: u64,
    unchanged: bool,
)
    ensures
        verdict_of(processed, total, output, muted, unchanged) == Verdict::Complete <==> processed
            == total && output != muted && unchanged,
        processed != total ==> verdict_of(processed, total, output, muted, unchanged)
            == Verdict::Unclocked,
        processed == total && output == muted ==> verdict_of(
            processed,
            total,
            output,
            muted,
            unchanged,
        ) == Verdict::Unplaced,
        verdict_of(processed, total, output, muted, unchanged) == Verdict::Changed ==> !unchanged,
{
}

/// What was observed counts where it was answered with 200: the answer is the text that its
/// base64 stands for, at the time at which it ended. Anything else counts for nothing.
pub proof fn answered_observations_count(row: Tree)
    ensures
        row.unsigned_at("http_status"@) != Some(200u64) <==> observed(row) == Ok::<
            Option<Seq<char>>,
            RowError,
        >(None),
        observed(row) matches Ok(Some(body)) ==> {
            &&& row.text_at("response_base64"@) matches Some(text)
            &&& codec::decoded(text) matches Some(bytes)
            &&& valid_utf8(bytes) && body == decode_utf8(bytes)
            &&& row.signed_at("response_end_ns"@) is Some
        },
        observed(row) == Err::<Option<Seq<char>>, _>(RowError::Response) <==> row.unsigned_at(
            "http_status"@,
        ) == Some(200u64) && row.text_at("response_base64"@) is None,
        observed(row) == Err::<Option<Seq<char>>, _>(RowError::EventTime) ==> row.signed_at(
            "response_end_ns"@,
        ) is None,
{
}

/// The files that a recording is processed from have their names: older recordings have
/// another log of events and another start.
pub proof fn inputs_have_their_names()
    ensures
        inputs_of(false).0 == seq![
            "raw/microphone.wav"@,
            "raw/audio.clock.jsonl"@,
            "raw/osc.events.jsonl"@,
        ],
        inputs_of(false).1 == "raw/pose-bootstrap.json"@,
        inputs_of(true).0 == seq![
            "raw/microphone.wav"@,
            "raw/audio.clock.jsonl"@,
            "raw/osc.jsonl"@,
        ],
        inputs_of(true).1 == "raw/osc.query-state.json"@,
{
}

/// A file is sealed exactly where the manifest gives its digest under its name.
pub proof fn files_are_sealed_by_their_digest(
    manifest: Tree,
    name: Seq<char>,
    digest: Seq<char>,
    other: Seq<char>,
)
    ensures
        sealed(manifest, name, digest) && sealed(manifest, name, other) ==> digest == other,
        manifest.get("files"@) is None ==> !sealed(manifest, name, digest),
        manifest.get("files"@) matches Some(files) ==> (sealed(manifest, name, digest) <==>
            files.text_at(name) == Some(digest)),
{
}

} // verus!
