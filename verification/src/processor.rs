//! The processor of a recording: pose events in the order of their times, packets of
//! audio cut into blocks, and what becomes of each block. Samples and gains are bit
//! patterns; what is computed of them is computed outside.
use crate::agenda;
use crate::agenda::{Agenda, Entry};
use crate::bits;
use crate::bits::{finite, finite32, gain as is_gain, ONE, SIGN};
use crate::codec;
use crate::json;
use crate::json::{Json, Tree};
use crate::osc;
use crate::osc::{decode_osc, live_types, Message, OscError, Signal};
use crate::pose::SourceModel;
use crate::text::{same, TextMap};
use vstd::prelude::*;

verus! {

broadcast use vstd::string::group_string_axioms;

/// Why a row holds no messages.
#[derive(Clone, Copy, PartialEq, Eq, Structural, Debug)]
pub enum EventError {
    /// The row is neither a datagram nor a snapshot.
    Kind,
    /// A datagram is missing.
    Datagram,
    /// A datagram is not base64.
    Base64,
    /// A datagram is no packet.
    Packet(OscError),
    /// The body of a snapshot is missing.
    Body,
    /// The body of a snapshot is no JSON.
    Json,
    /// The address of a snapshot is missing.
    Address,
    /// The address of a snapshot is none that is listened to.
    UnknownAddress,
    /// The body of a snapshot is not about its address.
    Response,
    /// The body of a snapshot has no values.
    Values,
    /// The body of a snapshot has not one value.
    Scalar,
    /// The value of a snapshot should be true or false.
    Boolean,
    /// The value of a snapshot should be a finite number.
    Number,
}

/// The type tag that a value of a kind has.
pub open spec fn tag_of(kind: Seq<char>, value: Tree) -> Result<Seq<char>, EventError> {
    if kind == "T"@ {
        match value.flag() {
            Some(true) => Ok(",T"@),
            Some(false) => Ok(",F"@),
            None => Err(EventError::Boolean),
        }
    } else if value.bits() is Some && bits::is_finite(value.bits()->0) {
        Ok(","@ + kind)
    } else {
        Err(EventError::Number)
    }
}

/// The message that the answer to a query amounts to.
pub open spec fn answered(
    address: Seq<char>,
    body: Tree,
    types: Map<Seq<char>, Seq<char>>,
) -> Result<Signal, EventError> {
    if !types.contains_key(address) {
        Err(EventError::UnknownAddress)
    } else {
        let kind = types[address];
        let access = match body.unsigned_at("ACCESS"@) {
            Some(n) => n,
            None => 0,
        };
        if body.text_at("FULL_PATH"@) != Some(address) || body.text_at("TYPE"@) != Some(kind)
            || access % 2 == 0 {
            Err(EventError::Response)
        } else {
            match body.items_at("VALUE"@) {
                None => Err(EventError::Values),
                Some(values) => if values.len() != 1 {
                    Err(EventError::Scalar)
                } else {
                    match tag_of(kind, values[0]) {
                        Err(e) => Err(e),
                        Ok(typetag) => Ok(Signal { address, typetag, values }),
                    }
                },
            }
        }
    }
}

/// The numbers of every message that a row holds are finite.
pub proof fn rows_hold_finite_numbers(row: Tree, i: int)
    requires
        row_messages(row) is Ok,
        0 <= i < row_messages(row)->Ok_0.len(),
    ensures
        osc::is_measured(row_messages(row)->Ok_0[i]),
{
    if row.text_at("kind"@) == Some("udp"@) {
        let bytes = codec::decoded(row.text_at("datagram_base64"@)->0)->0;
        osc::read_messages_are_well_formed(bytes);
        osc::well_formed_messages_are_measured(row_messages(row)->Ok_0[i]);
    }
}

/// The addresses that are listened to, with their type tags.
pub open spec fn heard() -> Map<Seq<char>, Seq<char>> {
    osc::tags_of(osc::families(), osc::families().len())
}

/// The messages of a row.
pub open spec fn row_messages(row: Tree) -> Result<Seq<Signal>, EventError> {
    let kind = row.text_at("kind"@);
    if kind == Some("udp"@) {
        match row.text_at("datagram_base64"@) {
            None => Err(EventError::Datagram),
            Some(text) => match codec::decoded(text) {
                None => Err(EventError::Base64),
                Some(bytes) => match osc::packet(bytes, Seq::empty(), 0) {
                    Err(e) => Err(EventError::Packet(e)),
                    Ok(messages) => Ok(messages),
                },
            },
        }
    } else if kind == Some("snapshot"@) {
        match row.text_at("body"@) {
            None => Err(EventError::Body),
            Some(text) => match json::parsed(text) {
                None => Err(EventError::Json),
                Some(body) => match row.text_at("address"@) {
                    None => Err(EventError::Address),
                    Some(address) => match answered(address, body, heard()) {
                        Err(e) => Err(e),
                        Ok(message) => Ok(seq![message]),
                    },
                },
            },
        }
    } else {
        Err(EventError::Kind)
    }
}

/// A finite number or a truth value, copied.
fn scalar(value: &Json) -> (res: Option<Json>)
    ensures
        res is Some <==> value@ is Bool || value@ is Number,
        res matches Some(json) ==> json@ == value@,
{
    match value {
        Json::Bool(b) => Some(Json::Bool(*b)),
        Json::Number(n) => Some(Json::Number(*n)),
        _ => None,
    }
}

/// The message that the answer to a query amounts to.
pub fn answer(address: &str, body: &Json, types: &TextMap<String>) -> (res: Result<
    Message,
    EventError,
>)
    requires
        types.wf(),
    ensures
        res matches Err(e) ==> answered(address@, body@, osc::texts(types@)) == Err::<Signal, _>(e),
        res matches Ok(m) ==> answered(address@, body@, osc::texts(types@)) == Ok::<_, EventError>(
            m@,
        ),
{
    let kind = match types.get(address) {
        Some(kind) => kind,
        None => {
            return Err(EventError::UnknownAddress);
        },
    };
    let access: u64 = match body.unsigned_at("ACCESS") {
        Some(n) => n,
        None => 0,
    };
    let path_fits = match body.text_at("FULL_PATH") {
        Some(path) => same(path, address),
        None => false,
    };
    let type_fits = match body.text_at("TYPE") {
        Some(name) => same(name, kind),
        None => false,
    };
    if !path_fits || !type_fits || access % 2 == 0 {
        return Err(EventError::Response);
    }
    let values = match body.get("VALUE") {
        Some(list) => match list.items() {
            Some(values) => values,
            None => {
                return Err(EventError::Values);
            },
        },
        None => {
            return Err(EventError::Values);
        },
    };
    if values.len() != 1 {
        return Err(EventError::Scalar);
    }
    let value = &values[0];
    let ghost trees = body@.items_at("VALUE"@)->0;
    assert(trees[0] == value@);
    let typetag = if same(kind, "T") {
        match value.flag() {
            Some(true) => ",T".to_owned(),
            Some(false) => ",F".to_owned(),
            None => {
                return Err(EventError::Boolean);
            },
        }
    } else {
        match value.bits() {
            Some(n) => {
                if !finite(n) {
                    return Err(EventError::Number);
                }
                let mut tag = ",".to_owned();
                tag.append(kind);
                tag
            },
            None => {
                return Err(EventError::Number);
            },
        }
    };
    match scalar(value) {
        Some(copy) => {
            let mut list: Vec<Json> = Vec::new();
            list.push(copy);
            assert(osc::trees(list@) =~= trees);
            Ok(Message { address: address.to_owned(), typetag, values: list })
        },
        None => Err(EventError::Number),
    }
}

/// The messages of a row: those of the datagram that it kept, or the one that the
/// answer to a query amounts to.
pub fn messages(row: &Json) -> (res: Result<Vec<Message>, EventError>)
    ensures
        res matches Err(e) ==> row_messages(row@) == Err::<Seq<Signal>, _>(e),
        res matches Ok(list) ==> row_messages(row@) == Ok::<_, EventError>(osc::signals(list@)),
{
    let kind = match row.text_at("kind") {
        Some(kind) => kind,
        None => {
            return Err(EventError::Kind);
        },
    };
    if same(kind, "udp") {
        let text = match row.text_at("datagram_base64") {
            Some(text) => text,
            None => {
                return Err(EventError::Datagram);
            },
        };
        let bytes = match codec::decode(text) {
            Some(bytes) => bytes,
            None => {
                return Err(EventError::Base64);
            },
        };
        return match decode_osc(&bytes) {
            Ok(list) => Ok(list),
            Err(e) => Err(EventError::Packet(e)),
        };
    }
    if !same(kind, "snapshot") {
        return Err(EventError::Kind);
    }
    let body = match row.text_at("body") {
        Some(text) => match json::parse(text) {
            Some(body) => body,
            None => {
                return Err(EventError::Json);
            },
        },
        None => {
            return Err(EventError::Body);
        },
    };
    let address = match row.text_at("address") {
        Some(address) => address,
        None => {
            return Err(EventError::Address);
        },
    };
    let types = live_types();
    match answer(address, &body, &types) {
        Ok(message) => {
            let mut list: Vec<Message> = Vec::new();
            list.push(message);
            assert(osc::signals(list@) =~= seq![message@]);
            Ok(list)
        },
        Err(e) => Err(e),
    }
}

/// A datagram as it is kept in a row.
pub fn retained(datagram: &[u8]) -> (text: String)
    requires
        datagram@.len() <= isize::MAX / 2,
    ensures
        text@ == codec::encoded(datagram@),
        codec::decoded(text@) == Some(datagram@),
{
    codec::encode(datagram)
}

/// A datagram survives being kept: the messages of its row are those that it had when
/// it came, or are wanting for the same reason.
pub proof fn kept_datagram_is_replayed(row: Tree, text: Seq<char>, datagram: Seq<u8>)
    requires
        row.text_at("kind"@) == Some("udp"@),
        row.text_at("datagram_base64"@) == Some(text),
        codec::decoded(text) == Some(datagram),
    ensures
        row_messages(row) == (match osc::packet(datagram, Seq::empty(), 0) {
            Ok(messages) => Ok::<_, EventError>(messages),
            Err(e) => Err(EventError::Packet(e)),
        }),
{
}

/// Why an event is refused.
#[derive(Clone, Copy, PartialEq, Eq, Structural, Debug)]
pub enum TimelineError {
    /// Too many events are waiting.
    Bounds,
    /// The event has no time of receipt.
    Time,
    /// A change of the gain has none, or one that is out of range.
    Gain,
}

/// How many events may wait.
pub const EVENTS: usize = 200_000;

/// What an event does when its time has come.
#[derive(Debug)]
pub enum Event {
    /// The gain changes, to so many decibels.
    Gain(Option<u64>),
    /// Messages are taken in, as of a time. They are the answer to a request if it is
    /// a snapshot.
    Pose {
        at: Option<i64>,
        snapshot: bool,
        request_start: i64,
        messages: Option<Vec<Message>>,
    },
}

/// The events that wait, each with what it was read from, and the time up to which
/// they have been taken.
#[derive(Debug)]
pub struct Timeline<R> {
    agenda: Agenda<(Event, R)>,
    last_source: i64,
}

impl<R> Timeline<R> {
    /// The events that wait.
    pub closed spec fn waiting(&self) -> Seq<Entry<(Event, R)>> {
        self.agenda.waiting()
    }

    /// The number that the next event gets.
    pub closed spec fn next(&self) -> u64 {
        self.agenda.next()
    }

    /// The time up to which events have been taken.
    pub closed spec fn taken(&self) -> i64 {
        self.last_source
    }

    pub closed spec fn wf(&self) -> bool {
        self.agenda.wf()
    }

    /// The events that wait are in order.
    pub proof fn is_ordered(&self)
        requires
            self.wf(),
        ensures
            agenda::in_order(self.waiting(), self.next()),
    {
        self.agenda.is_ordered();
    }

    pub fn new() -> (t: Timeline<R>)
        ensures
            t.wf(),
            t.waiting() == Seq::<Entry<(Event, R)>>::empty(),
            t.next() == 0,
            t.taken() == -1,
    {
        Timeline { agenda: Agenda::new(), last_source: -1 }
    }

    pub fn len(&self) -> (n: usize)
        ensures
            n == self.waiting().len(),
    {
        self.agenda.len()
    }

    /// The event at a place in the order.
    pub fn entry(&self, i: usize) -> (res: &Entry<(Event, R)>)
        requires
            i < self.waiting().len(),
        ensures
            *res == self.waiting()[i as int],
    {
        self.agenda.entry(i)
    }

    /// The time up to which events have been taken.
    pub fn last_source(&self) -> (at: i64)
        ensures
            at == self.taken(),
    {
        self.last_source
    }

    /// Says up to which time events have been taken.
    pub fn set_last_source(&mut self, at: i64)
        requires
            old(self).wf(),
        ensures
            final(self).wf(),
            final(self).taken() == at,
            final(self).waiting() == old(self).waiting(),
            final(self).next() == old(self).next(),
    {
        self.last_source = at;
    }

    /// Lets an event wait for its time, behind all that come no later.
    pub fn insert(&mut self, time: i64, event: Event, row: R)
        requires
            old(self).wf(),
            old(self).next() < u64::MAX,
        ensures
            final(self).wf(),
            final(self).next() == old(self).next() + 1,
            final(self).taken() == old(self).taken(),
            final(self).waiting() == old(self).waiting().insert(
                agenda::until(old(self).waiting(), time, 0),
                Entry { time, sequence: old(self).next(), item: (event, row) },
            ),
    {
        self.agenda.insert(time, (event, row));
    }

    /// Takes the next event whose time has come.
    pub fn due(&mut self, at: i64) -> (res: Option<Entry<(Event, R)>>)
        requires
            old(self).wf(),
        ensures
            final(self).wf(),
            final(self).next() == old(self).next(),
            final(self).taken() == old(self).taken(),
            (old(self).waiting().len() == 0 || old(self).waiting()[0].time > at) ==> res is None
                && final(self).waiting() == old(self).waiting(),
            (old(self).waiting().len() > 0 && old(self).waiting()[0].time <= at) ==> res == Some(
                old(self).waiting()[0],
            ) && final(self).waiting() == old(self).waiting().drop_first(),
    {
        self.agenda.due(at)
    }
}

/// What a row waits as: a change of the gain, or the messages that it has. A row
/// without messages is passed over.
pub open spec fn is_event_of(event: Event, row: Tree) -> bool {
    if row.text_at("kind"@) == Some("gain_change"@) {
        event == Event::Gain(row.bits_at("gain_db"@))
    } else {
        match event {
            Event::Pose { at, snapshot, request_start, messages } => {
                &&& at == row.signed_at("receive_time_ns"@)
                &&& snapshot == (row.text_at("kind"@) == Some("snapshot"@))
                &&& request_start == (match row.signed_at("request_start_ns"@) {
                    Some(t) => t,
                    None => 0,
                })
                &&& messages matches Some(list)
                &&& Ok::<_, EventError>(osc::signals(list@)) == row_messages(row)
            },
            _ => false,
        }
    }
}

/// A row that is refused, and why.
pub open spec fn refusal(waiting: nat, row: Tree) -> Option<TimelineError> {
    if waiting >= EVENTS {
        Some(TimelineError::Bounds)
    } else if row.signed_at("receive_time_ns"@) is None {
        Some(TimelineError::Time)
    } else if row.text_at("kind"@) == Some("gain_change"@) && !(row.bits_at("gain_db"@) is Some
        && bits::down_to_minus(row.bits_at("gain_db"@)->0, bits::SIXTY)) {
        Some(TimelineError::Gain)
    } else {
        None
    }
}

/// When a row that was received at a time takes effect: not before what has been
/// taken already.
pub open spec fn effective(received: i64, taken: i64) -> int {
    if received > taken {
        received as int
    } else {
        taken + 1
    }
}

/// What becomes of a timeline, of what was taken before, by a row that says this: it is
/// refused, or passed over because it holds no messages, or it waits at its time.
pub open spec fn took_event<R>(
    before: Timeline<R>,
    after: Timeline<R>,
    document: Tree,
    row: R,
    res: Result<(), TimelineError>,
) -> bool {
    let had = before.waiting();
    let has = after.waiting();
    match refusal(had.len(), document) {
        Some(e) => res == Err::<(), _>(e) && has == had && after.next() == before.next(),
        None => {
            &&& res is Ok
            &&& if document.text_at("kind"@) != Some("gain_change"@) && row_messages(
                document,
            ) is Err {
                has == had && after.next() == before.next()
            } else {
                let time = effective(
                    document.signed_at("receive_time_ns"@)->0,
                    before.taken(),
                ) as i64;
                let k = agenda::until(had, time, 0);
                &&& after.next() == before.next() + 1
                &&& has.len() == had.len() + 1
                &&& has == had.insert(k, has[k])
                &&& has[k].time == time
                &&& has[k].sequence == before.next()
                &&& has[k].item.1 == row
                &&& is_event_of(has[k].item.0, document)
            }
        },
    }
}

/// An event never takes effect before or at a time that was looked at already.
pub proof fn late_events_wait(received: i64, taken: i64)
    ensures
        effective(received, taken) > taken,
        received > taken ==> effective(received, taken) == received,
{
}

impl<R> Timeline<R> {
    /// Takes a row in. `document` is what it holds.
    pub fn event(&mut self, document: &Json, row: R) -> (res: Result<(), TimelineError>)
        requires
            old(self).wf(),
            old(self).next() < u64::MAX,
            old(self).taken() < i64::MAX,
        ensures
            final(self).wf(),
            final(self).taken() == old(self).taken(),
            took_event(*old(self), *final(self), document@, row, res),
    {
        if self.agenda.len() >= EVENTS {
            return Err(TimelineError::Bounds);
        }
        let received: i64 = match document.signed_at("receive_time_ns") {
            Some(t) => t,
            None => {
                return Err(TimelineError::Time);
            },
        };
        let changes_gain = match document.text_at("kind") {
            Some(kind) => same(kind, "gain_change"),
            None => false,
        };
        let event = if changes_gain {
            match document.bits_at("gain_db") {
                Some(db) => {
                    if !is_gain(db) {
                        return Err(TimelineError::Gain);
                    }
                    Event::Gain(Some(db))
                },
                None => {
                    return Err(TimelineError::Gain);
                },
            }
        } else {
            let list = match messages(document) {
                Ok(list) => list,
                Err(_) => {
                    return Ok(());
                },
            };
            let snapshot = match document.text_at("kind") {
                Some(kind) => same(kind, "snapshot"),
                None => false,
            };
            let request_start: i64 = match document.signed_at("request_start_ns") {
                Some(t) => t,
                None => 0,
            };
            Event::Pose { at: Some(received), snapshot, request_start, messages: Some(list) }
        };
        let time: i64 = if received > self.last_source {
            received
        } else {
            self.last_source + 1
        };
        proof {
            self.is_ordered();
            agenda::until_parts(self.waiting(), time, 0, self.next());
        }
        let ghost before = self.waiting();
        self.insert(time, event, row);
        proof {
            let k = agenda::until(before, time, 0);
            assert(self.waiting()[k].time == time);
        }
        Ok(())
    }
}

/// Samples as they were captured, frame by frame, as bit patterns.
#[derive(Debug)]
pub struct AudioPacket {
    pub samples: Vec<u32>,
    pub frames: u32,
    pub channels: u32,
    pub flags: u32,
    pub device: u64,
    pub file: u64,
    pub time: i64,
}

/// Why a packet is refused.
#[derive(Clone, Copy, PartialEq, Eq, Structural, Debug)]
pub enum PacketError {
    /// The recording is over.
    Finished,
    /// There is no such channel.
    Channel,
    /// The packet is too long, or has not so many samples as it should have.
    Length,
    /// The channels are not those of the packets before.
    Format,
    /// Frames are missing before the packet.
    Discontinuity,
}

/// How many frames a block has.
pub const BLOCK: usize = 256;

/// So many frames of one channel: the frame at which they begin, how many of them
/// are audio, and the samples, of which the rest is silent.
#[derive(Debug)]
pub struct Block {
    pub first: u64,
    pub valid: usize,
    pub mono: Vec<u32>,
}

/// The blocks that a packet completes, and whether what came before has to be
/// forgotten first.
#[derive(Debug)]
pub struct Blocks {
    pub reset: bool,
    pub list: Vec<Block>,
}

/// Cuts packets into blocks.
#[derive(Debug)]
pub struct Assembler {
    pending: Vec<u32>,
    next_frame: u64,
    channels: u32,
    channel: usize,
    started: bool,
    finished: bool,
    expected_device: u64,
    previous: bool,
    packet_time: i64,
    packet_frame: u64,
    discontinuities: u64,
    discarded: u64,
}

/// An assembler by its contents.
#[verifier::ext_equal]
pub ghost struct Line {
    pub pending: Seq<u32>,
    pub next_frame: u64,
    pub channels: u32,
    pub channel: usize,
    pub started: bool,
    pub finished: bool,
    pub expected_device: u64,
    pub previous: bool,
    pub packet_time: i64,
    pub packet_frame: u64,
    pub discontinuities: u64,
    pub discarded: u64,
}

impl View for Assembler {
    type V = Line;

    closed spec fn view(&self) -> Line {
        Line {
            pending: self.pending@,
            next_frame: self.next_frame,
            channels: self.channels,
            channel: self.channel,
            started: self.started,
            finished: self.finished,
            expected_device: self.expected_device,
            previous: self.previous,
            packet_time: self.packet_time,
            packet_frame: self.packet_frame,
            discontinuities: self.discontinuities,
            discarded: self.discarded,
        }
    }
}

/// A line of audio of which nothing has come.
pub open spec fn no_audio() -> Line {
    Line {
        pending: Seq::empty(),
        next_frame: 0,
        channels: 0,
        channel: 0,
        started: false,
        finished: false,
        expected_device: 0,
        previous: false,
        packet_time: 0,
        packet_frame: 0,
        discontinuities: 0,
        discarded: 0,
    }
}

/// A line of audio that is over.
pub open spec fn over(l: Line) -> Line {
    if l.finished {
        l
    } else {
        Line { finished: true, pending: Seq::empty(), ..l }
    }
}

/// A line of audio that stopped behind a block that begins at a frame: the rest of the
/// packet has not been taken in.
pub open spec fn stopped(l: Line, first: u64) -> Line {
    Line { pending: Seq::empty(), next_frame: (first + 256) as u64, ..l }
}

/// A packet that is refused before anything of it counts.
pub open spec fn unfit(l: Line, a: AudioPacket, channel: usize) -> Option<PacketError> {
    if l.finished {
        Some(PacketError::Finished)
    } else if !(0 < a.channels <= 32) || channel >= a.channels {
        Some(PacketError::Channel)
    } else if a.frames > 480000 || a.samples@.len() != a.frames * a.channels {
        Some(PacketError::Length)
    } else if l.started && (l.channels != a.channels || l.channel != channel) {
        Some(PacketError::Format)
    } else {
        None
    }
}

/// The time of the packet cannot be trusted.
pub open spec fn is_untimed(a: AudioPacket) -> bool {
    a.flags / 4 % 2 == 1
}

/// What came before the packet does not lead up to it.
pub open spec fn is_cut(l: Line, a: AudioPacket) -> bool {
    a.flags % 2 == 1 || is_untimed(a) || (l.previous && a.device != l.expected_device)
}

/// The state before the samples of a packet are looked at.
pub open spec fn prepared(l: Line, a: AudioPacket, channel: usize) -> Line {
    let begun = if l.started {
        l
    } else {
        Line { started: true, next_frame: a.file, channels: a.channels, channel, ..l }
    };
    let cut = if is_cut(l, a) {
        Line {
            pending: Seq::empty(),
            next_frame: a.file,
            discarded: (l.discarded + l.pending.len()) as u64,
            discontinuities: (l.discontinuities + 1) as u64,
            ..begun
        }
    } else {
        begun
    };
    Line {
        previous: !is_untimed(a),
        expected_device: (a.device + a.frames) as u64,
        ..cut
    }
}

/// The samples of one channel.
pub open spec fn picked(a: AudioPacket, channel: int) -> Seq<u32> {
    Seq::new(a.frames as nat, |i: int| a.samples@[i * a.channels + channel])
}

/// What waited, and the samples of the packet behind it.
pub open spec fn joined(l: Line, a: AudioPacket, channel: usize) -> Seq<u32> {
    prepared(l, a, channel).pending + picked(a, channel as int)
}

/// The state after a packet.
pub open spec fn advanced(l: Line, a: AudioPacket, channel: usize) -> Line {
    let p = prepared(l, a, channel);
    let all = joined(l, a, channel);
    if is_untimed(a) {
        Line {
            discarded: (p.discarded + a.frames) as u64,
            next_frame: (a.file + a.frames) as u64,
            ..p
        }
    } else if a.file != p.next_frame {
        p
    } else {
        Line {
            pending: all.skip(all.len() as int / 256 * 256),
            next_frame: (a.file + a.frames) as u64,
            packet_time: a.time,
            packet_frame: a.file,
            ..p
        }
    }
}

/// The blocks are whole pieces of the samples, one behind the other.
pub open spec fn cut_from(blocks: Seq<Block>, all: Seq<u32>, first: int) -> bool {
    &&& blocks.len() == all.len() as int / 256
    &&& forall|i: int|
        0 <= i < blocks.len() ==> {
            &&& (#[trigger] blocks[i]).first == first + 256 * i
            &&& blocks[i].valid == 256
            &&& blocks[i].mono@ == all.subrange(256 * i, 256 * i + 256)
        }
}

/// What becomes of a line of audio by a packet.
pub open spec fn took_packet(
    before: Line,
    after: Line,
    a: AudioPacket,
    channel: usize,
    res: Result<Blocks, PacketError>,
) -> bool {
    match unfit(before, a, channel) {
        Some(e) => res == Err::<Blocks, _>(e) && after == before,
        None => {
            let p = prepared(before, a, channel);
            &&& after == advanced(before, a, channel)
            &&& if is_untimed(a) {
                res matches Ok(b) && b.reset && b.list@.len() == 0
            } else if a.file != p.next_frame {
                res == Err::<Blocks, _>(PacketError::Discontinuity)
            } else {
                res matches Ok(b) && b.reset == is_cut(before, a) && cut_from(
                    b.list@,
                    joined(before, a, channel),
                    a.file - p.pending.len(),
                )
            }
        },
    }
}

impl Assembler {
    /// Less than a block waits.
    pub closed spec fn wf(&self) -> bool {
        &&& self.pending@.len() < 256
        &&& self.pending@.len() <= self.next_frame
        &&& !self.started ==> self.pending@.len() == 0
        &&& self.finished ==> self.pending@.len() == 0
    }

    /// Nothing waits once the recording is over.
    pub proof fn finished_holds_nothing(&self)
        requires
            self.wf(),
        ensures
            self@.finished ==> self@.pending.len() == 0,
    {
    }

    pub fn new() -> (res: Assembler)
        ensures
            res.wf(),
            res@ == no_audio(),
    {
        Assembler {
            pending: Vec::new(),
            next_frame: 0,
            channels: 0,
            channel: 0,
            started: false,
            finished: false,
            expected_device: 0,
            previous: false,
            packet_time: 0,
            packet_frame: 0,
            discontinuities: 0,
            discarded: 0,
        }
    }

    fn cut(&mut self, a: &AudioPacket, channel: usize) -> (list: Vec<Block>)
        requires
            old(self).wf(),
            old(self).started,
            !old(self).finished,
            old(self).next_frame == a.file,
            a.file + a.frames <= u64::MAX,
            a.samples@.len() == a.frames * a.channels,
            channel < a.channels,
        ensures
            final(self).wf(),
            ({
                let all = old(self)@.pending + picked(*a, channel as int);
                &&& cut_from(list@, all, a.file - old(self)@.pending.len())
                &&& final(self)@ == (Line {
                    pending: all.skip(all.len() as int / 256 * 256),
                    next_frame: (a.file + a.frames) as u64,
                    ..old(self)@
                })
            }),
    {
        let ghost had = self.pending@;
        let ghost all = had + picked(*a, channel as int);
        let ghost first = a.file - had.len();
        let mut list: Vec<Block> = Vec::new();
        let mut i: u32 = 0;
        let mut at: usize = channel;
        assert(all.subrange(0, had.len() as int) =~= had);
        while i < a.frames
            invariant
                i <= a.frames,
                a.file + a.frames <= u64::MAX,
                a.samples@.len() == a.frames * a.channels,
                channel < a.channels,
                i < a.frames ==> at == i * a.channels + channel,
                all == had + picked(*a, channel as int),
                first == a.file - had.len(),
                first >= 0,
                self.next_frame == a.file + i,
                self.pending@.len() < 256,
                had.len() + i == 256 * list.len() + self.pending@.len(),
                self.pending@ == all.subrange(256 * list.len(), had.len() + i),
                forall|k: int|
                    0 <= k < list.len() ==> {
                        &&& (#[trigger] list@[k]).first == first + 256 * k
                        &&& list@[k].valid == 256
                        &&& list@[k].mono@ == all.subrange(256 * k, 256 * k + 256)
                    },
                self@ == (Line {
                    pending: self@.pending,
                    next_frame: self@.next_frame,
                    ..old(self)@
                }),
            decreases a.frames - i,
        {
            proof {
                let c = a.channels as int;
                assert((i + 1) * c <= a.frames * c) by (nonlinear_arith)
                    requires
                        i + 1 <= a.frames,
                        c > 0,
                ;
                assert((i + 1) * c == i * c + c) by (nonlinear_arith);
            }
            let sample: u32 = a.samples[at];
            let ghost before = self.pending@;
            assert(sample == all[had.len() + i]);
            self.pending.push(sample);
            self.next_frame = self.next_frame + 1;
            i += 1;
            assert(self.pending@ =~= all.subrange(256 * list.len(), had.len() + i));
            if self.pending.len() == 256 {
                let mut mono: Vec<u32> = Vec::new();
                std::mem::swap(&mut mono, &mut self.pending);
                let block = Block { first: self.next_frame - 256, valid: 256, mono };
                let ghost n = list.len();
                list.push(block);
                proof {
                    assert(self.pending@ =~= all.subrange(256 * list.len(), had.len() + i));
                    assert forall|k: int| 0 <= k < list.len() implies {
                        &&& (#[trigger] list@[k]).first == first + 256 * k
                        &&& list@[k].valid == 256
                        &&& list@[k].mono@ == all.subrange(256 * k, 256 * k + 256)
                    } by {
                        if k == n {
                            assert(list@[k] == block);
                        }
                    }
                }
            }
            if i < a.frames {
                proof {
                    let c = a.channels as int;
                    assert((i + 1) * c <= a.frames * c) by (nonlinear_arith)
                        requires
                            i + 1 <= a.frames,
                            c > 0,
                    ;
                    assert((i + 1) * c == i * c + c) by (nonlinear_arith);
                    assert(((i - 1) + 1) * c == (i - 1) * c + c) by (nonlinear_arith);
                    assert(at + c < a.samples.len());
                }
                at = at + a.channels as usize;
            }
        }
        proof {
            assert(all.len() == had.len() + a.frames);
            assert(all.len() as int / 256 == list.len());
            assert(self.pending@ =~= all.skip(256 * list.len()));
        }
        list
    }

    /// Takes a packet in and gives the blocks that it completes.
    pub fn push(&mut self, a: &AudioPacket, channel: usize) -> (res: Result<Blocks, PacketError>)
        requires
            old(self).wf(),
            a.file + a.frames <= u64::MAX,
            a.device + a.frames <= u64::MAX,
            old(self)@.discarded + 256 + a.frames <= u64::MAX,
            old(self)@.discontinuities < u64::MAX,
        ensures
            final(self).wf(),
            took_packet(old(self)@, final(self)@, *a, channel, res),
    {
        if self.finished {
            return Err(PacketError::Finished);
        }
        if a.channels == 0 || a.channels > 32 || channel >= a.channels as usize {
            return Err(PacketError::Channel);
        }
        proof {
            assert(a.frames * a.channels <= u32::MAX * 32) by (nonlinear_arith)
                requires
                    a.channels <= 32,
            ;
        }
        if a.frames > 480000 || a.samples.len() as u64 != a.frames as u64 * a.channels as u64 {
            return Err(PacketError::Length);
        }
        if self.started && (self.channels != a.channels || self.channel != channel) {
            return Err(PacketError::Format);
        }
        let ghost start = self@;
        if !self.started {
            self.started = true;
            self.next_frame = a.file;
            self.channels = a.channels;
            self.channel = channel;
        }
        let untimed = a.flags / 4 % 2 == 1;
        let cut = a.flags % 2 == 1 || untimed || (self.previous && a.device
            != self.expected_device);
        if cut {
            self.discarded = self.discarded + self.pending.len() as u64;
            self.pending = Vec::new();
            self.next_frame = a.file;
            self.discontinuities = self.discontinuities + 1;
        }
        self.previous = !untimed;
        self.expected_device = a.device + a.frames as u64;
        proof {
            if cut {
                assert(self.pending@ =~= Seq::<u32>::empty());
            }
            assert(self@ == prepared(start, *a, channel));
        }
        if untimed {
            self.discarded = self.discarded + a.frames as u64;
            self.next_frame = a.file + a.frames as u64;
            return Ok(Blocks { reset: true, list: Vec::new() });
        }
        if a.file != self.next_frame {
            return Err(PacketError::Discontinuity);
        }
        self.packet_time = a.time;
        self.packet_frame = a.file;
        let list = self.cut(a, channel);
        Ok(Blocks { reset: cut, list })
    }
}

/// Samples filled up with silence to a block.
pub open spec fn padded(samples: Seq<u32>) -> Seq<u32> {
    Seq::new(
        256,
        |i: int|
            if i < samples.len() {
                samples[i]
            } else {
                0
            },
    )
}

impl Assembler {
    /// Ends the recording. What waits makes a last block, filled up with silence.
    pub fn finish(&mut self) -> (res: Option<Block>)
        requires
            old(self).wf(),
        ensures
            final(self).wf(),
            final(self)@ == over(old(self)@),
            old(self)@.finished ==> res is None,
            !old(self)@.finished && old(self)@.pending.len() == 0 ==> res is None,
            !old(self)@.finished && old(self)@.pending.len() > 0 ==> (res matches Some(b) && b.first
                == old(self)@.next_frame - old(self)@.pending.len() && b.valid == old(
                self,
            )@.pending.len() && b.mono@ == padded(old(self)@.pending)),
    {
        if self.finished {
            return None;
        }
        self.finished = true;
        let valid: usize = self.pending.len();
        let ghost had = self.pending@;
        let mut mono: Vec<u32> = Vec::new();
        std::mem::swap(&mut mono, &mut self.pending);
        assert(self.pending@ =~= Seq::<u32>::empty());
        if valid == 0 {
            return None;
        }
        while mono.len() < 256
            invariant
                valid <= mono.len() <= 256,
                valid == had.len(),
                forall|i: int|
                    0 <= i < mono.len() ==> mono@[i] == (if i < valid {
                        had[i]
                    } else {
                        0u32
                    }),
            decreases 256 - mono.len(),
        {
            mono.push(0);
        }
        assert(mono@ =~= padded(had));
        Some(Block { first: self.next_frame - valid as u64, valid, mono })
    }

    /// A block of the last packet could not be processed. What came behind it is not
    /// taken in, and is missing before the next packet.
    pub fn stop(&mut self, first: u64)
        requires
            old(self).wf(),
            first + 256 <= u64::MAX,
        ensures
            final(self).wf(),
            final(self)@ == stopped(old(self)@, first),
    {
        self.pending = Vec::new();
        self.next_frame = first + 256;
        assert(self.pending@ =~= Seq::<u32>::empty());
    }

    /// Whether a packet has come.
    pub fn is_started(&self) -> (res: bool)
        ensures
            res == self@.started,
    {
        self.started
    }

    /// The time and the first frame of the last packet.
    pub fn packet(&self) -> (res: (i64, u64))
        ensures
            res == (self@.packet_time, self@.packet_frame),
    {
        (self.packet_time, self.packet_frame)
    }

    /// How often the audio was cut, and how many frames were lost by it.
    pub fn losses(&self) -> (res: (u64, u64))
        ensures
            res == (self@.discontinuities, self@.discarded),
    {
        (self.discontinuities, self.discarded)
    }
}

/// No frame is lost or heard twice: where a packet is taken in, what waited and what
/// came is what went into blocks and what waits now.
pub proof fn frames_are_accounted_for(l: Line, a: AudioPacket, channel: usize)
    requires
        unfit(l, a, channel) is None,
        !is_untimed(a),
        a.file == prepared(l, a, channel).next_frame,
        a.samples@.len() == a.frames * a.channels,
    ensures
        prepared(l, a, channel).pending.len() + a.frames == 256 * (joined(
            l,
            a,
            channel,
        ).len() as int / 256) + advanced(l, a, channel).pending.len(),
        advanced(l, a, channel).pending.len() < 256,
        is_cut(l, a) ==> prepared(l, a, channel).pending.len() == 0,
        !is_cut(l, a) ==> prepared(l, a, channel).pending == l.pending,
{
}

/// Where a block cannot be processed, the packet ends with it: the next packet is refused
/// as one before which frames are missing, unless the block was the end of the packet or
/// the audio is cut there anyway.
pub proof fn failed_block_ends_the_packet(
    l: Line,
    a: AudioPacket,
    next: AudioPacket,
    channel: usize,
    i: int,
    after: Line,
    res: Result<Blocks, PacketError>,
)
    requires
        unfit(l, a, channel) is None,
        !is_untimed(a),
        a.file == prepared(l, a, channel).next_frame,
        0 <= i < joined(l, a, channel).len() as int / 256,
        a.file >= prepared(l, a, channel).pending.len(),
        a.file + a.frames <= u64::MAX,
        next.file == a.file + a.frames,
        ({
            let first = a.file - prepared(l, a, channel).pending.len() + 256 * i;
            let s = stopped(advanced(l, a, channel), first as u64);
            &&& first + 256 < next.file
            &&& unfit(s, next, channel) is None
            &&& !is_cut(s, next)
            &&& took_packet(s, after, next, channel, res)
        }),
    ensures
        res == Err::<Blocks, _>(PacketError::Discontinuity),
{
}

/// A packet whose time cannot be trusted is dropped, so the time it claims makes no
/// difference: neither to what comes out of it, nor to what comes after it.
pub proof fn untrusted_time_makes_no_difference(
    l: Line,
    a: AudioPacket,
    b: AudioPacket,
    channel: usize,
)
    requires
        is_untimed(a),
        b == (AudioPacket { time: b.time, ..a }),
    ensures
        unfit(l, a, channel) == unfit(l, b, channel),
        unfit(l, a, channel) is None ==> {
            &&& advanced(l, a, channel) == advanced(l, b, channel)
            &&& advanced(l, a, channel).pending.len() == 0
            &&& advanced(l, a, channel).packet_time == l.packet_time
        },
        forall|after: Line, res: Result<Blocks, PacketError>|
            took_packet(l, after, a, channel, res) <==> #[trigger] took_packet(
                l,
                after,
                b,
                channel,
                res,
            ),
{
}

/// A line of audio after packets of which none was refused.
pub open spec fn line_after(l: Line, packets: Seq<AudioPacket>, channel: usize) -> Option<Line>
    decreases packets.len(),
{
    if packets.len() == 0 {
        Some(l)
    } else {
        match line_after(l, packets.drop_last(), channel) {
            None => None,
            Some(before) => {
                let a = packets.last();
                if unfit(before, a, channel) is Some || (!is_untimed(a) && a.file != prepared(
                    before,
                    a,
                    channel,
                ).next_frame) {
                    None
                } else {
                    Some(advanced(before, a, channel))
                }
            },
        }
    }
}

/// How many frames packets have.
pub open spec fn frames_in(packets: Seq<AudioPacket>) -> int
    decreases packets.len(),
{
    if packets.len() == 0 {
        0
    } else {
        frames_in(packets.drop_last()) + packets.last().frames
    }
}

/// How many blocks packets fill, of which none was refused.
pub open spec fn blocks_in(l: Line, packets: Seq<AudioPacket>, channel: usize) -> int
    decreases packets.len(),
{
    if packets.len() == 0 {
        0
    } else {
        let before = line_after(l, packets.drop_last(), channel)->0;
        let a = packets.last();
        blocks_in(l, packets.drop_last(), channel) + if is_untimed(a) {
            0
        } else {
            joined(before, a, channel).len() as int / 256
        }
    }
}

/// No frame of a recording is lost or heard twice: the frames of all packets are those in
/// blocks, those that wait and those that were discarded, be it at a cut or because the
/// time of their packet could not be trusted.
pub proof fn frames_of_a_run_are_accounted_for(
    l: Line,
    packets: Seq<AudioPacket>,
    channel: usize,
)
    requires
        line_after(l, packets, channel) is Some,
        l.discarded + l.pending.len() + frames_in(packets) <= u64::MAX,
    ensures
        ({
            let after = line_after(l, packets, channel)->0;
            l.pending.len() + l.discarded + frames_in(packets) == 256 * blocks_in(
                l,
                packets,
                channel,
            ) + after.pending.len() + after.discarded
        }),
        0 <= blocks_in(l, packets, channel),
        frames_in(packets) >= 0,
    decreases packets.len(),
{
    if packets.len() > 0 {
        let before = line_after(l, packets.drop_last(), channel)->0;
        let a = packets.last();
        frames_of_a_run_are_accounted_for(l, packets.drop_last(), channel);
        let all = joined(before, a, channel);
        assert(all.len() == prepared(before, a, channel).pending.len() + a.frames);
    }
}

/// Two recordings that differ only in the time of a packet whose time cannot be trusted
/// are cut into blocks alike: after each packet the line of audio is the same.
pub proof fn recordings_without_that_time_are_alike(
    l: Line,
    packets: Seq<AudioPacket>,
    k: int,
    time: i64,
    channel: usize,
)
    requires
        0 <= k < packets.len(),
        is_untimed(packets[k]),
    ensures
        line_after(l, packets.update(k, AudioPacket { time, ..packets[k] }), channel) == line_after(
            l,
            packets,
            channel,
        ),
    decreases packets.len(),
{
    let other = AudioPacket { time, ..packets[k] };
    let changed = packets.update(k, other);
    if k < packets.len() - 1 {
        assert(changed.drop_last() =~= packets.drop_last().update(k, other));
        recordings_without_that_time_are_alike(l, packets.drop_last(), k, time, channel);
    } else {
        assert(changed.drop_last() =~= packets.drop_last());
        match line_after(l, packets.drop_last(), channel) {
            None => {},
            Some(before) => {
                untrusted_time_makes_no_difference(before, packets[k], other, channel);
            },
        }
    }
}

/// The whole part of a quotient.
pub open spec fn whole(n: int, d: int) -> int {
    if n >= 0 {
        n / d
    } else {
        -((-n) / d)
    }
}

/// The time of a frame, counted from that of a packet at 48 kHz.
pub open spec fn frame_time(packet_time: i64, packet_frame: u64, frame: u64) -> int {
    packet_time + whole((frame - packet_frame) * 1_000_000_000, 48000)
}

/// The time for which a block is processed: that of its first frame, but always later
/// than what was processed before.
pub open spec fn source_time(packet_time: i64, packet_frame: u64, first: u64, last: i64) -> int {
    let time = frame_time(packet_time, packet_frame, first);
    if time > last {
        time
    } else {
        last + 1
    }
}

/// Whether the time of a frame is no later than the last there is.
pub fn has_time(packet_time: i64, packet_frame: u64, frame: u64) -> (res: bool)
    ensures
        res == (frame_time(packet_time, packet_frame, frame) <= i64::MAX),
{
    if frame <= packet_frame {
        return true;
    }
    let delta: i128 = ((frame - packet_frame) as u128 * 1_000_000_000 / 48000) as i128;
    packet_time as i128 + delta <= i64::MAX as i128
}

/// The time for which a block is processed.
pub fn block_time(packet_time: i64, packet_frame: u64, first: u64, last: i64) -> (at: i64)
    requires
        last < i64::MAX,
        frame_time(packet_time, packet_frame, first) <= i64::MAX,
    ensures
        at == source_time(packet_time, packet_frame, first, last),
        at > last,
{
    let delta: i128 = if first >= packet_frame {
        ((first - packet_frame) as u128 * 1_000_000_000 / 48000) as i128
    } else {
        -(((packet_frame - first) as u128 * 1_000_000_000 / 48000) as i128)
    };
    let time: i128 = packet_time as i128 + delta;
    if time > last as i128 {
        time as i64
    } else {
        last + 1
    }
}

/// How long after a frame was captured it is delivered, and how much earlier it has
/// to be ready, in nanoseconds.
pub const DELIVERY_NS: i64 = 300_000_000;

pub const READY_NS: i64 = 25_000_000;

/// The bits of 60.000001.
pub const SIXTY_AND_A_BIT: u64 = 0x404e_0000_0863_7bd0;

/// Why a gain is refused.
#[derive(Clone, Copy, PartialEq, Eq, Structural, Debug)]
pub enum GainError {
    /// The gain is not between -60 and 0 decibels.
    Gain,
    /// The gain that was applied last is not between 0 and 1.
    Applied,
}

/// The gain, and what has become of the blocks so far.
#[derive(Clone, Copy, PartialEq, Eq, Structural, Debug)]
pub struct Mixer {
    pub origin: i64,
    /// The linear gain, and the one that was applied last.
    pub gain: u64,
    pub applied_gain: u64,
    /// The gain has been set for good.
    pub gain_override: bool,
    pub was_valid: bool,
    pub previous_model: Option<SourceModel>,
    pub out_frames: u64,
    pub muted: u64,
    pub late: u64,
    /// How many frames came from each source.
    pub mouth_frames: u64,
    pub head_frames: u64,
    pub unsupported_frames: u64,
}

/// Whether a block is processed, and whether what came before has to be forgotten
/// first.
#[derive(Clone, Copy, PartialEq, Eq, Structural, Debug)]
pub struct Plan {
    pub ready: bool,
    pub reset: bool,
}

/// What became of a block.
#[derive(Clone, Copy, PartialEq, Eq, Structural, Debug)]
pub struct Outcome {
    /// The block was processed.
    pub ready: bool,
    /// The block was to be processed, and was refused.
    pub refused: bool,
    /// When it is delivered.
    pub timestamp: i64,
    /// It comes too late to be delivered, and is silent.
    pub late: bool,
    /// The frame of the output at which it begins.
    pub output_file_frame: u64,
    /// The gain it begins with, and the one it ends with.
    pub gain_from: u64,
    pub gain: u64,
}

/// Every sample is finite.
pub open spec fn all_finite(mono: Seq<u32>) -> bool {
    forall|i: int| 0 <= i < mono.len() ==> bits::is_finite32(#[trigger] mono[i])
}

/// Whether a block is processed.
pub open spec fn planned(m: Mixer, valid: bool, model: SourceModel, mono: Seq<u32>) -> Plan {
    let ready = valid && all_finite(mono);
    Plan { ready, reset: ready && (!m.was_valid || m.previous_model != Some(model)) }
}

/// The mixer after a block.
pub open spec fn mixed(m: Mixer, ready: bool, model: SourceModel, valid: usize, late: bool) -> Mixer {
    Mixer {
        was_valid: ready,
        previous_model: Some(model),
        applied_gain: m.gain,
        muted: if ready {
            m.muted
        } else {
            (m.muted + valid) as u64
        },
        late: if late {
            (m.late + 1) as u64
        } else {
            m.late
        },
        out_frames: (m.out_frames + valid) as u64,
        mouth_frames: if model == SourceModel::MouthProbe {
            (m.mouth_frames + valid) as u64
        } else {
            m.mouth_frames
        },
        head_frames: if model == SourceModel::HeadOffset {
            (m.head_frames + valid) as u64
        } else {
            m.head_frames
        },
        unsupported_frames: if model == SourceModel::Unsupported {
            (m.unsupported_frames + valid) as u64
        } else {
            m.unsupported_frames
        },
        ..m
    }
}

/// When a block for a time of the session is delivered.
pub open spec fn delivered(origin: i64, at: i64) -> int {
    origin + at + DELIVERY_NS
}

/// It is too late to deliver at a time.
pub open spec fn is_late(timestamp: int, clock: Option<i64>) -> bool {
    clock is Some && clock->0 > timestamp - READY_NS
}

/// A mixer that has put out nothing.
pub open spec fn unmixed(origin: i64, gain: u64) -> Mixer {
    Mixer {
        origin,
        gain,
        applied_gain: gain,
        gain_override: false,
        was_valid: false,
        previous_model: None,
        out_frames: 0,
        muted: 0,
        late: 0,
        mouth_frames: 0,
        head_frames: 0,
        unsupported_frames: 0,
    }
}

impl Mixer {
    /// Every frame that was put out came from one source.
    pub open spec fn wf(self) -> bool {
        &&& self.muted <= self.out_frames
        &&& self.mouth_frames + self.head_frames + self.unsupported_frames == self.out_frames
    }

    /// A mixer with a gain of so many decibels, which is so much in linear terms.
    pub fn new(origin: i64, db: u64, gain: u64) -> (res: Result<Mixer, GainError>)
        ensures
            bits::down_to_minus(db, bits::SIXTY) ==> (res matches Ok(m) && m.wf() && m == unmixed(
                origin,
                gain,
            )),
            !bits::down_to_minus(db, bits::SIXTY) ==> res == Err::<Mixer, _>(GainError::Gain),
    {
        if !is_gain(db) {
            return Err(GainError::Gain);
        }
        Ok(
            Mixer {
                origin,
                gain,
                applied_gain: gain,
                gain_override: false,
                was_valid: false,
                previous_model: None,
                out_frames: 0,
                muted: 0,
                late: 0,
                mouth_frames: 0,
                head_frames: 0,
                unsupported_frames: 0,
            },
        )
    }

    /// Changes the gain as the recording did, unless it has been set for good.
    pub fn change_gain(&mut self, gain: u64)
        ensures
            *final(self) == (Mixer {
                gain: if old(self).gain_override {
                    old(self).gain
                } else {
                    gain
                },
                ..*old(self)
            }),
    {
        if !self.gain_override {
            self.gain = gain;
        }
    }

    /// Sets the gain for good: it replaces all that the recording had.
    pub fn override_gain(&mut self, db: u64, gain: u64) -> (res: Result<(), GainError>)
        ensures
            bits::down_to_minus(db, bits::SIXTY) ==> res is Ok && *final(self) == (Mixer {
                gain,
                applied_gain: gain,
                gain_override: true,
                ..*old(self)
            }),
            !bits::down_to_minus(db, bits::SIXTY) ==> res == Err::<(), _>(GainError::Gain)
                && *final(self) == *old(self),
    {
        if !is_gain(db) {
            return Err(GainError::Gain);
        }
        self.gain = gain;
        self.applied_gain = gain;
        self.gain_override = true;
        Ok(())
    }

    /// Takes over the gain of a checkpoint, unless it has been set for good. `gain` is
    /// what so many decibels are in linear terms.
    pub fn restore_gain(&mut self, db: Option<u64>, gain: u64, applied: Option<u64>) -> (res: Result<
        (),
        GainError,
    >)
        ensures
            old(self).gain_override || db is None ==> res is Ok && *final(self) == *old(self),
            !old(self).gain_override && db is Some ==> ({
                let now = match applied {
                    Some(a) => a,
                    None => gain,
                };
                if !bits::down_to_minus(db->0, SIXTY_AND_A_BIT) {
                    res == Err::<(), _>(GainError::Gain) && *final(self) == *old(self)
                } else if !bits::from_zero_to(now, ONE) {
                    res == Err::<(), _>(GainError::Applied) && *final(self) == (Mixer {
                        gain,
                        ..*old(self)
                    })
                } else {
                    res is Ok && *final(self) == (Mixer { gain, applied_gain: now, ..*old(self) })
                }
            }),
    {
        if self.gain_override {
            return Ok(());
        }
        let db: u64 = match db {
            Some(db) => db,
            None => {
                return Ok(());
            },
        };
        if !(db == 0 || (db >= SIGN && db - SIGN <= SIXTY_AND_A_BIT)) {
            return Err(GainError::Gain);
        }
        self.gain = gain;
        let now: u64 = match applied {
            Some(a) => a,
            None => gain,
        };
        if !bits::fraction(now) {
            return Err(GainError::Applied);
        }
        self.applied_gain = now;
        Ok(())
    }

    /// Audio was cut: what comes next does not follow what came before.
    pub fn cut(&mut self)
        ensures
            *final(self) == (Mixer { was_valid: false, ..*old(self) }),
    {
        self.was_valid = false;
    }

    /// Whether a block is processed: the position is known and every sample is finite.
    pub fn plan(&self, valid: bool, model: SourceModel, mono: &Vec<u32>) -> (plan: Plan)
        ensures
            plan == planned(*self, valid, model, mono@),
    {
        let mut i: usize = 0;
        let mut sound = true;
        while i < mono.len()
            invariant
                i <= mono.len(),
                sound <==> forall|k: int| 0 <= k < i ==> bits::is_finite32(#[trigger] mono@[k]),
            decreases mono.len() - i,
        {
            if !finite32(mono[i]) {
                sound = false;
            }
            i += 1;
        }
        let ready = valid && sound;
        let same_model = match self.previous_model {
            Some(before) => before == model,
            None => false,
        };
        Plan { ready, reset: ready && (!self.was_valid || !same_model) }
    }

    /// Counts a block in, of which so many frames are audio. `processed` says whether
    /// a block that was to be processed was; `clock` is the time, where there is one.
    pub fn settle(
        &mut self,
        plan: Plan,
        processed: bool,
        model: SourceModel,
        valid: usize,
        at: i64,
        clock: Option<i64>,
    ) -> (out: Outcome)
        requires
            old(self).wf(),
            old(self).out_frames + valid <= u64::MAX,
            old(self).late < u64::MAX,
            i64::MIN + READY_NS <= old(self).origin + at + DELIVERY_NS <= i64::MAX,
            i64::MIN <= old(self).origin + at <= i64::MAX,
        ensures
            final(self).wf(),
            ({
                let timestamp = delivered(old(self).origin, at);
                let ready = plan.ready && processed;
                let late = is_late(timestamp, clock);
                &&& *final(self) == mixed(*old(self), ready, model, valid, late)
                &&& out == (Outcome {
                    ready,
                    refused: plan.ready && !processed,
                    timestamp: timestamp as i64,
                    late,
                    output_file_frame: old(self).out_frames,
                    gain_from: old(self).applied_gain,
                    gain: old(self).gain,
                })
            }),
    {
        let ready = plan.ready && processed;
        if !ready {
            self.muted = self.muted + valid as u64;
        }
        self.was_valid = ready;
        self.previous_model = Some(model);
        match model {
            SourceModel::MouthProbe => {
                self.mouth_frames = self.mouth_frames + valid as u64;
            },
            SourceModel::HeadOffset => {
                self.head_frames = self.head_frames + valid as u64;
            },
            SourceModel::Unsupported => {
                self.unsupported_frames = self.unsupported_frames + valid as u64;
            },
        }
        let gain_from: u64 = self.applied_gain;
        self.applied_gain = self.gain;
        let timestamp: i64 = self.origin + at + DELIVERY_NS;
        let late = match clock {
            Some(now) => now > timestamp - READY_NS,
            None => false,
        };
        if late {
            self.late = self.late + 1;
        }
        let output_file_frame: u64 = self.out_frames;
        self.out_frames = self.out_frames + valid as u64;
        Outcome {
            ready,
            refused: plan.ready && !processed,
            timestamp,
            late,
            output_file_frame,
            gain_from,
            gain: self.gain,
        }
    }
}

/// A gain that was set for good stays, whatever the recording had and whatever a
/// checkpoint says.
pub proof fn override_prevails(
    m: Mixer,
    ready: bool,
    model: SourceModel,
    valid: usize,
    late: bool,
)
    requires
        m.gain_override,
    ensures
        mixed(m, ready, model, valid, late).gain == m.gain,
        mixed(m, ready, model, valid, late).applied_gain == m.gain,
        mixed(m, ready, model, valid, late).gain_override,
{
}

/// The gain moves without a jump: each block begins with the gain that the one before
/// it ended with.
pub proof fn gain_is_continuous(
    m: Mixer,
    ready: bool,
    model: SourceModel,
    valid: usize,
    late: bool,
)
    ensures
        mixed(m, ready, model, valid, late).applied_gain == m.gain,
{
}

/// Why a checkpoint is refused.
#[derive(Clone, Copy, PartialEq, Eq, Structural, Debug)]
pub enum RestoreError {
    /// It is none, or comes too late.
    Checkpoint,
    /// Its time is missing.
    Time,
    /// Its events are missing.
    Events,
    /// It has too many events or steps.
    Limit,
    /// The time of an event is missing.
    EventTime,
    /// Its history is no list.
    History,
    /// The time of a step is missing.
    StepTime,
    /// A step is of an unknown kind.
    Step,
}

/// The message that a document holds, as an object or as a list of its parts.
pub open spec fn stored_message(t: Tree) -> Option<Signal> {
    match t {
        Tree::Array(a) => if a.len() == 3 && a[0].text() is Some && a[1].text() is Some
            && a[2].items() is Some {
            Some(
                Signal {
                    address: a[0].text()->0,
                    typetag: a[1].text()->0,
                    values: a[2].items()->0,
                },
            )
        } else {
            None
        },
        _ => if t.text_at("address"@) is Some && t.text_at("typetag"@) is Some && t.items_at(
            "values"@,
        ) is Some {
            Some(
                Signal {
                    address: t.text_at("address"@)->0,
                    typetag: t.text_at("typetag"@)->0,
                    values: t.items_at("values"@)->0,
                },
            )
        } else {
            None
        },
    }
}

/// The messages that a document holds.
pub open spec fn stored_messages(t: Option<Tree>) -> Option<Seq<Signal>> {
    match t {
        Some(Tree::Array(a)) => if forall|i: int|
            0 <= i < a.len() ==> stored_message(#[trigger] a[i]) is Some {
            Some(Seq::new(a.len(), |i: int| stored_message(a[i])->0))
        } else {
            None
        },
        _ => None,
    }
}

fn copies(values: &Vec<Json>) -> (res: Vec<Json>)
    ensures
        osc::trees(res@) == osc::trees(values@),
{
    let mut res: Vec<Json> = Vec::new();
    while res.len() < values.len()
        invariant
            res.len() <= values.len(),
            forall|i: int| 0 <= i < res.len() ==> (#[trigger] res@[i])@ == values@[i]@,
        decreases values.len() - res.len(),
    {
        let one = json::copy(&values[res.len()]);
        res.push(one);
    }
    assert(osc::trees(res@) =~= osc::trees(values@));
    res
}

fn message_from(address: Option<&String>, typetag: Option<&String>, values: Option<&Vec<Json>>) -> (res: Option<
    Message,
>)
    ensures
        res is Some <==> address is Some && typetag is Some && values is Some,
        res matches Some(m) ==> m@.address == address->0@ && m@.typetag == typetag->0@ && m@.values
            == osc::trees(values->0@),
{
    match address {
        Some(address) => match typetag {
            Some(typetag) => match values {
                Some(values) => Some(
                    Message {
                        address: address.as_str().to_owned(),
                        typetag: typetag.as_str().to_owned(),
                        values: copies(values),
                    },
                ),
                None => None,
            },
            None => None,
        },
        None => None,
    }
}

fn read_message(json: &Json) -> (res: Option<Message>)
    ensures
        res is Some <==> stored_message(json@) is Some,
        res matches Some(m) ==> stored_message(json@) == Some(m@),
{
    match json {
        Json::Array(a) => {
            assert(json@->Array_0.len() == a@.len());
            if a.len() != 3 {
                return None;
            }
            assert(json@->Array_0[0] == a@[0]@ && json@->Array_0[1] == a@[1]@ && json@->Array_0[2]
                == a@[2]@);
            let res = message_from(a[0].text(), a[1].text(), a[2].items());
            proof {
                if res is Some {
                    let m = res->0;
                    assert(m@.values =~= json@->Array_0[2].items()->0);
                    assert(m@ =~= stored_message(json@)->0);
                }
            }
            res
        },
        _ => {
            let values = match json.get("values") {
                Some(list) => list.items(),
                None => None,
            };
            let res = message_from(json.text_at("address"), json.text_at("typetag"), values);
            proof {
                if res is Some {
                    let m = res->0;
                    assert(m@.values =~= json@.items_at("values"@)->0);
                    assert(m@ =~= stored_message(json@)->0);
                }
            }
            res
        },
    }
}

fn read_messages(json: Option<&Json>) -> (res: Option<Vec<Message>>)
    ensures
        ({
            let t = match json {
                Some(json) => Some(json@),
                None => None,
            };
            &&& res is Some <==> stored_messages(t) is Some
            &&& res matches Some(list) ==> stored_messages(t) == Some(osc::signals(list@))
        }),
{
    let a = match json {
        Some(json) => match json.items() {
            Some(a) => a,
            None => {
                return None;
            },
        },
        None => {
            return None;
        },
    };
    let ghost trees = json->0@.items()->0;
    let mut list: Vec<Message> = Vec::new();
    while list.len() < a.len()
        invariant
            list.len() <= a.len(),
            trees.len() == a.len(),
            forall|i: int| 0 <= i < a@.len() ==> trees[i] == #[trigger] a@[i]@,
            json is Some,
            json->0@ == Tree::Array(trees),
            forall|i: int|
                0 <= i < list.len() ==> stored_message(#[trigger] trees[i]) == Some(list@[i]@),
        decreases a.len() - list.len(),
    {
        let ghost n = list.len() as int;
        match read_message(&a[list.len()]) {
            Some(m) => {
                list.push(m);
            },
            None => {
                assert(stored_message(trees[n]) is None) by {
                    assert(trees[n] == a@[n]@);
                }
                return None;
            },
        }
    }
    assert(osc::signals(list@) =~= Seq::new(trees.len(), |i: int| stored_message(trees[i])->0));
    Some(list)
}

/// What a row that was saved with its messages waits as. Nothing of it is checked
/// before its time comes.
pub open spec fn is_stored_event(event: Event, row: Tree) -> bool {
    if row.text_at("kind"@) == Some("gain_change"@) {
        event == Event::Gain(row.bits_at("gain_db"@))
    } else {
        match event {
            Event::Pose { at, snapshot, request_start, messages } => {
                &&& at == row.signed_at("receive_time_ns"@)
                &&& snapshot == (row.text_at("kind"@) == Some("snapshot"@))
                &&& request_start == (match row.signed_at("request_start_ns"@) {
                    Some(t) => t,
                    None => 0,
                })
                &&& messages is Some <==> stored_messages(row.get("messages"@)) is Some
                &&& messages matches Some(list) ==> stored_messages(row.get("messages"@)) == Some(
                    osc::signals(list@),
                )
            },
            _ => false,
        }
    }
}

/// What a row that was saved with its messages waits as.
pub fn stored_event(row: &Json) -> (event: Event)
    ensures
        is_stored_event(event, row@),
{
    let (changes_gain, snapshot) = match row.text_at("kind") {
        Some(kind) => (same(kind, "gain_change"), same(kind, "snapshot")),
        None => (false, false),
    };
    if changes_gain {
        return Event::Gain(row.bits_at("gain_db"));
    }
    let request_start: i64 = match row.signed_at("request_start_ns") {
        Some(t) => t,
        None => 0,
    };
    Event::Pose {
        at: row.signed_at("receive_time_ns"),
        snapshot,
        request_start,
        messages: read_messages(row.get("messages")),
    }
}

/// The time that a checkpoint was taken at and how many events it has.
pub open spec fn checkpoint_of(started: bool, state: Tree) -> Result<(), RestoreError> {
    if started || state.text_at("kind"@) != Some("derived_processor_checkpoint"@) {
        Err(RestoreError::Checkpoint)
    } else {
        Ok(())
    }
}

/// Whether a state is a checkpoint that can still be restored.
pub fn is_checkpoint(started: bool, state: &Json) -> (res: Result<(), RestoreError>)
    ensures
        res == checkpoint_of(started, state@),
{
    let fits = match state.text_at("kind") {
        Some(kind) => same(kind, "derived_processor_checkpoint"),
        None => false,
    };
    if started || !fits {
        Err(RestoreError::Checkpoint)
    } else {
        Ok(())
    }
}

/// The events of a checkpoint with the times at which they take effect, if there is
/// nothing wrong with them.
pub open spec fn pending_of(state: Tree) -> Result<Seq<(i64, Tree)>, RestoreError> {
    match state.items_at("pending_events"@) {
        None => Err(RestoreError::Events),
        Some(list) => if list.len() > EVENTS {
            Err(RestoreError::Limit)
        } else if exists|i: int|
            0 <= i < list.len() && (#[trigger] list[i]).signed_at("effective_time_ns"@) is None {
            Err(RestoreError::EventTime)
        } else {
            Ok(
                Seq::new(
                    list.len(),
                    |i: int|
                        (
                            list[i].signed_at("effective_time_ns"@)->0,
                            match list[i].get("event"@) {
                                Some(row) => row,
                                None => Tree::Null,
                            },
                        ),
                ),
            )
        },
    }
}

/// The events of a checkpoint with the times at which they take effect, ready to
/// wait. None are given where one of them has no time.
pub fn pending(state: &Json) -> (res: Result<Vec<(i64, Event)>, RestoreError>)
    ensures
        res matches Err(e) ==> pending_of(state@) == Err::<Seq<(i64, Tree)>, _>(e),
        res matches Ok(list) ==> (pending_of(state@) matches Ok(rows) && list.len() == rows.len()
            && forall|i: int|
            0 <= i < list.len() ==> (#[trigger] list@[i]).0 == rows[i].0 && is_stored_event(
                list@[i].1,
                rows[i].1,
            )),
{
    let entries = match state.get("pending_events") {
        Some(json) => match json.items() {
            Some(entries) => entries,
            None => {
                return Err(RestoreError::Events);
            },
        },
        None => {
            return Err(RestoreError::Events);
        },
    };
    let ghost trees = state@.items_at("pending_events"@)->0;
    if entries.len() > EVENTS {
        return Err(RestoreError::Limit);
    }
    let mut list: Vec<(i64, Event)> = Vec::new();
    while list.len() < entries.len()
        invariant
            list.len() <= entries.len() <= EVENTS,
            state@.items_at("pending_events"@) == Some(trees),
            trees.len() == entries.len(),
            forall|i: int| 0 <= i < entries@.len() ==> trees[i] == #[trigger] entries@[i]@,
            forall|i: int|
                0 <= i < list.len() ==> {
                    &&& trees[i].signed_at("effective_time_ns"@) == Some((#[trigger] list@[i]).0)
                    &&& is_stored_event(
                        list@[i].1,
                        match trees[i].get("event"@) {
                            Some(row) => row,
                            None => Tree::Null,
                        },
                    )
                },
        decreases entries.len() - list.len(),
    {
        let ghost n = list.len() as int;
        let entry = &entries[list.len()];
        assert(trees[n] == entry@);
        let time: i64 = match entry.signed_at("effective_time_ns") {
            Some(t) => t,
            None => {
                return Err(RestoreError::EventTime);
            },
        };
        let event = match entry.get("event") {
            Some(row) => stored_event(row),
            None => stored_event(&Json::Null),
        };
        list.push((time, event));
    }
    proof {
        assert forall|i: int| 0 <= i < trees.len() implies (#[trigger] trees[i]).signed_at(
            "effective_time_ns"@,
        ) is Some by {
            assert(trees[i].signed_at("effective_time_ns"@) == Some(list@[i].0));
        }
    }
    Ok(list)
}

/// What a step of a checkpoint's history asks for.
#[derive(Clone, Copy, PartialEq, Eq, Structural, Debug)]
pub enum Step {
    /// An event is taken in.
    Event,
    /// The position is looked at as of a time.
    Evaluate(i64),
    /// Nothing, for it is in the past.
    Skip,
}

/// What a step of a checkpoint's history asks for, when positions up to a time have
/// been looked at.
pub open spec fn step_asked(step: Tree, last: i64) -> Result<Step, RestoreError> {
    if step.text_at("kind"@) == Some("event"@) {
        Ok(Step::Event)
    } else if step.text_at("kind"@) == Some("pose_eval"@) {
        match step.signed_at("source_time_ns"@) {
            None => Err(RestoreError::StepTime),
            Some(at) => if at > last {
                Ok(Step::Evaluate(at))
            } else {
                Ok(Step::Skip)
            },
        }
    } else {
        Err(RestoreError::Step)
    }
}

/// What a step of a checkpoint's history asks for.
pub fn next_step(step: &Json, last: i64) -> (res: Result<Step, RestoreError>)
    ensures
        res == step_asked(step@, last),
{
    let (is_event, is_eval) = match step.text_at("kind") {
        Some(kind) => (same(kind, "event"), same(kind, "pose_eval")),
        None => (false, false),
    };
    if is_event {
        return Ok(Step::Event);
    }
    if !is_eval {
        return Err(RestoreError::Step);
    }
    match step.signed_at("source_time_ns") {
        None => Err(RestoreError::StepTime),
        Some(at) => if at > last {
            Ok(Step::Evaluate(at))
        } else {
            Ok(Step::Skip)
        },
    }
}

/// The steps of a checkpoint's history: none where it has no history.
pub fn history<'a>(state: &'a Json) -> (res: Result<Option<&'a Vec<Json>>, RestoreError>)
    ensures
        ({
            let key = "replay_steps_before_ring"@;
            match state@.get(key) {
                None => res == Ok::<Option<&'a Vec<Json>>, RestoreError>(None),
                Some(steps) => match steps.items() {
                    None => res == Err::<Option<&'a Vec<Json>>, _>(RestoreError::History),
                    Some(list) => if list.len() > EVENTS {
                        res == Err::<Option<&'a Vec<Json>>, _>(RestoreError::Limit)
                    } else {
                        res matches Ok(Some(found)) && osc::trees(found@) == list
                    },
                },
            }
        }),
{
    match state.get("replay_steps_before_ring") {
        None => Ok(None),
        Some(steps) => match steps.items() {
            None => Err(RestoreError::History),
            Some(list) => {
                if list.len() > EVENTS {
                    return Err(RestoreError::Limit);
                }
                assert(osc::trees(list@) =~= steps@.items()->0);
                Ok(Some(list))
            },
        },
    }
}

/// Every frame of a packet that is taken in is heard once, at its own place, from the
/// selected channel: the sample of frame `i` stands in the block that covers frame `i` of
/// the packet, or waits. What waited before comes first. Blocks have 256 frames and follow
/// each other.
pub proof fn the_selected_channel_is_heard(
    before: Line,
    after: Line,
    a: AudioPacket,
    channel: usize,
    blocks: Blocks,
    i: int,
)
    requires
        took_packet(before, after, a, channel, Ok::<_, PacketError>(blocks)),
        a.flags / 4 % 2 == 0,
        before.pending.len() < 256,
        a.file + a.frames <= u64::MAX,
        0 <= i < a.frames,
    ensures
        ({
            let cut = a.flags % 2 == 1 || (before.previous && a.device != before.expected_device);
            let waited = if cut {
                0
            } else {
                before.pending.len() as int
            };
            let k = waited + i;
            let sample = a.samples@[i * a.channels + channel];
            &&& blocks.reset == cut
            &&& blocks.list@.len() == (waited + a.frames) / 256
            &&& after.pending.len() == (waited + a.frames) % 256
            &&& k / 256 < blocks.list@.len() ==> {
                &&& blocks.list@[k / 256].mono@.len() == 256
                &&& blocks.list@[k / 256].valid == 256
                &&& blocks.list@[k / 256].mono@[k % 256] == sample
                &&& blocks.list@[k / 256].first + k % 256 == a.file + i
            }
            &&& k / 256 >= blocks.list@.len() ==> after.pending[k - 256 * blocks.list@.len()]
                == sample
            &&& forall|j: int|
                0 <= j < waited && blocks.list@.len() > 0 ==> #[trigger] before.pending[j]
                    == blocks.list@[0].mono@[j]
            &&& forall|j: int|
                0 <= j < waited && blocks.list@.len() == 0 ==> #[trigger] before.pending[j]
                    == after.pending[j]
            &&& after.next_frame == a.file + a.frames
            &&& after.packet_time == a.time
            &&& after.packet_frame == a.file
        }),
{
    let all = joined(before, a, channel);
    let waited = prepared(before, a, channel).pending;
    let k = waited.len() + i;
    assert(all[k] == a.samples@[i * a.channels + channel]);
    let n = blocks.list@.len();
    assert(n == all.len() as int / 256);
    if k / 256 < n {
        let b = blocks.list@[k / 256];
        assert(b.mono@ == all.subrange(256 * (k / 256), 256 * (k / 256) + 256));
        assert(b.mono@[k % 256] == all[k]);
    } else {
        assert(after.pending == all.skip(256 * n as int));
    }
    if n > 0 {
        assert(blocks.list@[0].mono@ == all.subrange(0, 256));
    } else {
        assert(after.pending == all.skip(0));
    }
}

/// What the channels that are not selected hold makes no difference.
pub proof fn other_channels_make_no_difference(
    before: Line,
    after: Line,
    a: AudioPacket,
    b: AudioPacket,
    channel: usize,
    res: Result<Blocks, PacketError>,
)
    requires
        b == (AudioPacket { samples: b.samples, ..a }),
        b.samples@.len() == a.samples@.len(),
        channel < a.channels,
        forall|k: int|
            0 <= k < a.samples@.len() && k % (a.channels as int) == channel
                ==> #[trigger] a.samples@[k] == b.samples@[k],
    ensures
        took_packet(before, after, a, channel, res) <==> took_packet(
            before,
            after,
            b,
            channel,
            res,
        ),
{
    if a.samples@.len() == a.frames * a.channels {
        let n = a.channels as int;
        assert forall|i: int| 0 <= i < a.frames implies picked(a, channel as int)[i] == picked(
            b,
            channel as int,
        )[i] by {
            let k = i * n + channel;
            assert(0 <= i * n && (i + 1) * n <= a.frames * n) by (nonlinear_arith)
                requires
                    0 <= i,
                    i + 1 <= a.frames,
                    n > 0,
            ;
            assert((i + 1) * n == i * n + n) by (nonlinear_arith);
            assert(n * i + channel == k) by (nonlinear_arith)
                requires
                    k == i * n + channel,
            ;
            vstd::arithmetic::div_mod::lemma_mod_multiples_vanish(i, channel as int, n);
            vstd::arithmetic::div_mod::lemma_small_mod(channel as nat, n as nat);
            assert(a.samples@[k] == b.samples@[k]);
        }
        assert(picked(a, channel as int) =~= picked(b, channel as int));
    }
}

/// A packet is refused for one reason, the first that there is: the recording is over, it
/// has no such channel among one to thirty-two, it is longer than ten seconds or has not
/// its samples, or its format is not that of the packets before. Then nothing changes.
pub proof fn packets_are_refused_for_one_reason(
    before: Line,
    after: Line,
    a: AudioPacket,
    channel: usize,
    res: Result<Blocks, PacketError>,
)
    requires
        took_packet(before, after, a, channel, res),
    ensures
        ({
            let fits = 1 <= a.channels <= 32 && channel < a.channels;
            let whole_packet = a.frames <= 480_000 && a.samples@.len() == a.frames * a.channels;
            let same_format = !before.started || (before.channels == a.channels && before.channel
                == channel);
            &&& before.finished ==> res == Err::<Blocks, _>(PacketError::Finished) && after
                == before
            &&& !before.finished && !fits ==> res == Err::<Blocks, _>(PacketError::Channel)
                && after == before
            &&& !before.finished && fits && !whole_packet ==> res == Err::<Blocks, _>(
                PacketError::Length,
            ) && after == before
            &&& !before.finished && fits && whole_packet && !same_format ==> res == Err::<
                Blocks,
                _,
            >(PacketError::Format) && after == before
            &&& !before.finished && fits && whole_packet && same_format ==> {
                let untimed = a.flags / 4 % 2 == 1;
                let cut = untimed || a.flags % 2 == 1 || (before.previous && a.device
                    != before.expected_device);
                let follows = cut || !before.started || a.file == before.next_frame;
                &&& after.started && after.channels == a.channels && after.channel == channel
                &&& after.previous == !untimed
                &&& after.expected_device == (a.device + a.frames) as u64
                &&& after.finished == before.finished
                &&& res is Ok <==> untimed || follows
                &&& !follows ==> res == Err::<Blocks, _>(PacketError::Discontinuity)
                &&& untimed ==> res->Ok_0.list@.len() == 0 && res->Ok_0.reset
                    && after.packet_time == before.packet_time && after.packet_frame
                    == before.packet_frame
            }
        }),
{
}

/// Where the audio is cut, what waited is lost and counted as lost, and the cut is counted.
/// A packet without a time is lost whole. Nothing else is.
pub proof fn losses_are_counted(
    before: Line,
    after: Line,
    a: AudioPacket,
    channel: usize,
    blocks: Blocks,
)
    requires
        took_packet(before, after, a, channel, Ok::<_, PacketError>(blocks)),
        before.discarded + before.pending.len() + a.frames <= u64::MAX,
        before.discontinuities < u64::MAX,
    ensures
        ({
            let untimed = a.flags / 4 % 2 == 1;
            let cut = untimed || a.flags % 2 == 1 || (before.previous && a.device
                != before.expected_device);
            &&& after.discontinuities == before.discontinuities + if cut {
                1int
            } else {
                0
            }
            &&& after.discarded == before.discarded + if cut {
                before.pending.len() as int
            } else {
                0
            } + if untimed {
                a.frames as int
            } else {
                0
            }
        }),
{
}

/// The last block holds what waited, and silence behind it; and a line that is over says
/// so and holds nothing, but keeps everything else.
pub proof fn last_blocks_are_filled_up(l: Line, i: int)
    requires
        l.pending.len() < 256,
        0 <= i < 256,
    ensures
        padded(l.pending).len() == 256,
        i < l.pending.len() ==> padded(l.pending)[i] == l.pending[i],
        i >= l.pending.len() ==> padded(l.pending)[i] == 0,
        over(l).finished,
        !l.finished ==> over(l).pending.len() == 0,
        over(l).next_frame == l.next_frame && over(l).packet_time == l.packet_time && over(
            l,
        ).packet_frame == l.packet_frame && over(l).discarded == l.discarded && over(
            l,
        ).discontinuities == l.discontinuities,
        over(over(l)) == over(l),
{
}

/// Frames are 1/48000 of a second apart: a packet's own first frame has the packet's time,
/// 48 frames are a millisecond, and later frames have later times. A block is processed for
/// the time of its first frame, or right after the last where that has passed.
pub proof fn frames_have_their_times(packet_time: i64, frame: u64, n: u64, last: i64, later: u64)
    requires
        frame + 48 * n <= u64::MAX,
        frame <= later,
    ensures
        frame_time(packet_time, frame, frame) == packet_time,
        frame_time(packet_time, frame, (frame + 48 * n) as u64) == packet_time + n * 1_000_000,
        frame_time(packet_time, (frame + 48 * n) as u64, frame) == packet_time - n * 1_000_000,
        frame_time(packet_time, frame, later) >= packet_time,
        source_time(packet_time, frame, later, last) > last,
        frame_time(packet_time, frame, later) > last ==> source_time(
            packet_time,
            frame,
            later,
            last,
        ) == frame_time(packet_time, frame, later),
        frame_time(packet_time, frame, later) <= last ==> source_time(
            packet_time,
            frame,
            later,
            last,
        ) == last + 1,
{
    let ns = 48 * n * 1_000_000_000;
    assert(ns == 48000 * (n * 1_000_000));
    assert(ns / 48000 == n * 1_000_000);
    assert(whole(-ns, 48000) == -(n * 1_000_000));
}

/// Of any frame the time is off by less than a nanosecond, and it is never later than it
/// should be.
pub proof fn frame_times_are_exact(packet_time: i64, frame: u64, later: u64)
    requires
        frame <= later,
    ensures
        ({
            let ns = frame_time(packet_time, frame, later) - packet_time;
            ns * 48000 <= (later - frame) * 1_000_000_000 < (ns + 1) * 48000
        }),
{
}

/// An event waits once, at the time at which it was received or right after what was taken
/// already, behind every event that waits for that time or an earlier one, with the row
/// that it came from.
pub proof fn events_wait_at_their_time<R>(
    before: Timeline<R>,
    after: Timeline<R>,
    document: Tree,
    row: R,
    res: Result<(), TimelineError>,
    received: i64,
)
    requires
        took_event(before, after, document, row, res),
        before.wf(),
        before.waiting().len() < 200_000,
        before.taken() < i64::MAX,
        document.signed_at("receive_time_ns"@) == Some(received),
        document.text_at("kind"@) == Some("gain_change"@) ==> (document.bits_at(
            "gain_db"@,
        ) matches Some(db) && (db == 0 || 0x8000_0000_0000_0000 <= db <= 0xc04e_0000_0000_0000)),
        document.text_at("kind"@) != Some("gain_change"@) ==> row_messages(document) is Ok,
    ensures
        res is Ok,
        after.waiting().len() == before.waiting().len() + 1,
        exists|k: int|
            {
                &&& 0 <= k < after.waiting().len()
                &&& after.waiting() == before.waiting().insert(k, #[trigger] after.waiting()[k])
                &&& after.waiting()[k].time == (if received > before.taken() {
                    received as int
                } else {
                    before.taken() + 1
                })
                &&& after.waiting()[k].item.1 == row
                &&& forall|j: int|
                    0 <= j < k ==> (#[trigger] before.waiting()[j]).time
                        <= after.waiting()[k].time
                &&& forall|j: int|
                    k <= j < before.waiting().len() ==> (#[trigger] before.waiting()[j]).time
                        > after.waiting()[k].time
                &&& means(after.waiting()[k].item.0, document)
            },
{
    let had = before.waiting();
    let has = after.waiting();
    let time = effective(received, before.taken()) as i64;
    before.is_ordered();
    agenda::until_parts(had, time, 0, before.next());
    let k = agenda::until(had, time, 0);
    assert(has == had.insert(k, has[k]));
    assert(means(has[k].item.0, document));
}

/// What an event is of a row: a change of the gain to the row's decibels, or the row's
/// messages with the time of their receipt, and, for the answer to a request, the time at
/// which that was sent.
pub open spec fn means(event: Event, row: Tree) -> bool {
    if row.text_at("kind"@) == Some("gain_change"@) {
        event matches Event::Gain(db) && db == row.bits_at("gain_db"@)
    } else {
        &&& event matches Event::Pose { at, snapshot, request_start, messages: Some(list) }
        &&& at == row.signed_at("receive_time_ns"@)
        &&& snapshot <==> row.text_at("kind"@) == Some("snapshot"@)
        &&& row.signed_at("request_start_ns"@) matches Some(t) ==> request_start == t
        &&& row.signed_at("request_start_ns"@) is None ==> request_start == 0
        &&& row_messages(row) == Ok::<_, EventError>(osc::signals(list@))
    }
}

/// A row is refused when 200,000 wait, when it has no time of receipt, or when it changes
/// the gain to none between -60 and 0 decibels; and then nothing changes. A row that is no
/// change of the gain and holds no messages is passed over.
pub proof fn rows_are_refused_for_what_is_wrong<R>(
    before: Timeline<R>,
    after: Timeline<R>,
    document: Tree,
    row: R,
    res: Result<(), TimelineError>,
)
    requires
        took_event(before, after, document, row, res),
    ensures
        before.waiting().len() >= 200_000 ==> res == Err::<(), _>(TimelineError::Bounds),
        before.waiting().len() < 200_000 && document.signed_at("receive_time_ns"@) is None ==> res
            == Err::<(), _>(TimelineError::Time),
        before.waiting().len() < 200_000 && document.signed_at("receive_time_ns"@) is Some
            && document.text_at("kind"@) == Some("gain_change"@) && !(document.bits_at(
            "gain_db"@,
        ) matches Some(db) && (db == 0 || 0x8000_0000_0000_0000 <= db <= 0xc04e_0000_0000_0000))
            ==> res == Err::<(), _>(TimelineError::Gain),
        res is Err ==> after.waiting() == before.waiting(),
        res is Ok && document.text_at("kind"@) != Some("gain_change"@) && row_messages(
            document,
        ) is Err ==> after.waiting() == before.waiting(),
{
}

/// The answer to a request is the one message that its address and value make: the value
/// is the one that came, its tag is the address's own, and a truth value has a tag of its
/// own for either.
pub proof fn answers_become_one_message(
    address: Seq<char>,
    body: Tree,
    types: Map<Seq<char>, Seq<char>>,
)
    ensures
        answered(address, body, types) matches Ok(m) ==> {
            &&& types.contains_key(address)
            &&& m.address == address
            &&& body.text_at("FULL_PATH"@) == Some(address)
            &&& body.text_at("TYPE"@) == Some(types[address])
            &&& body.unsigned_at("ACCESS"@) matches Some(access) && access % 2 == 1
            &&& body.items_at("VALUE"@) == Some(m.values)
            &&& m.values.len() == 1
            &&& types[address] == "T"@ ==> (m.values[0].flag() matches Some(b) && m.typetag == (
            if b {
                ",T"@
            } else {
                ",F"@
            }))
            &&& types[address] != "T"@ ==> m.typetag == ","@ + types[address] && (
            m.values[0].bits() matches Some(n) && bits::is_finite(n))
        },
        !types.contains_key(address) ==> answered(address, body, types) == Err::<Signal, _>(
            EventError::UnknownAddress,
        ),
        types.contains_key(address) && body.text_at("FULL_PATH"@) == Some(address) && body.text_at(
            "TYPE"@,
        ) == Some(types[address]) && (body.unsigned_at("ACCESS"@) matches Some(access) && access % 2
            == 1) && (body.items_at("VALUE"@) matches Some(list) && list.len() == 1 && (
        if types[address] == "T"@ {
            list[0].flag() is Some
        } else {
            list[0].bits() matches Some(n) && bits::is_finite(n)
        })) ==> answered(address, body, types) is Ok,
{
}

/// A row has the messages of the datagram that it keeps, or the one of the answer that it
/// keeps; any other kind of row has none.
pub proof fn rows_hold_what_they_keep(row: Tree)
    ensures
        row_messages(row) is Ok ==> row.text_at("kind"@) == Some("udp"@) || row.text_at("kind"@)
            == Some("snapshot"@),
        row.text_at("kind"@) == Some("snapshot"@) && row_messages(row) is Ok ==> {
            &&& row.text_at("body"@) matches Some(text)
            &&& json::parsed(text) matches Some(body)
            &&& row.text_at("address"@) matches Some(address)
            &&& row_messages(row)->Ok_0.len() == 1
            &&& answered(address, body, heard()) == Ok::<_, EventError>(
                row_messages(row)->Ok_0[0],
            )
        },
        row.text_at("kind"@) == Some("udp"@) && row_messages(row) is Ok ==> {
            &&& row.text_at("datagram_base64"@) matches Some(text)
            &&& codec::decoded(text) matches Some(bytes)
            &&& osc::packet(bytes, Seq::empty(), 0) == Ok::<_, OscError>(row_messages(row)->Ok_0)
        },
{
    reveal_strlit("udp");
    reveal_strlit("snapshot");
    assert("udp"@.len() == 3 && "snapshot"@.len() == 8);
}

/// A block is processed exactly where the position is known and every sample is finite, and
/// starts afresh where the one before was not, or came from another source. It is delivered
/// 300 milliseconds after its time, and too late less than 25 milliseconds before that.
pub proof fn blocks_are_processed_where_they_can_be(
    m: Mixer,
    valid: bool,
    model: SourceModel,
    mono: Seq<u32>,
    at: i64,
    clock: i64,
)
    ensures
        planned(m, valid, model, mono).ready <==> valid && forall|i: int|
            0 <= i < mono.len() ==> (#[trigger] mono[i]) % 0x8000_0000 < 0x7f80_0000,
        planned(m, valid, model, mono).reset <==> planned(m, valid, model, mono).ready && !(
        m.was_valid && m.previous_model == Some(model)),
        delivered(m.origin, at) == m.origin + at + 300_000_000,
        is_late(delivered(m.origin, at), Some(clock)) <==> clock > m.origin + at + 275_000_000,
        !is_late(delivered(m.origin, at), None),
{
    if planned(m, valid, model, mono).ready {
        assert forall|i: int| 0 <= i < mono.len() implies (#[trigger] mono[i]) % 0x8000_0000
            < 0x7f80_0000 by {
            assert(bits::is_finite32(mono[i]));
        }
    } else if valid && forall|i: int|
        0 <= i < mono.len() ==> (#[trigger] mono[i]) % 0x8000_0000 < 0x7f80_0000 {
        assert forall|i: int| 0 <= i < mono.len() implies bits::is_finite32(
            #[trigger] mono[i],
        ) by {
            assert(mono[i] % 0x8000_0000 < 0x7f80_0000);
        }
    }
}

/// Every frame is counted once for its source, as silent where the block was not processed,
/// and a late block once; and the gain that was asked for is the one that the next block
/// begins with.
pub proof fn blocks_are_counted(
    m: Mixer,
    ready: bool,
    model: SourceModel,
    valid: usize,
    late: bool,
)
    requires
        m.wf(),
        m.out_frames + valid <= u64::MAX,
        m.late < u64::MAX,
    ensures
        ({
            let next = mixed(m, ready, model, valid, late);
            &&& next.out_frames == m.out_frames + valid
            &&& next.muted - m.muted == (if ready {
                0
            } else {
                valid as int
            })
            &&& next.late - m.late == (if late {
                1int
            } else {
                0
            })
            &&& model == SourceModel::MouthProbe ==> next.mouth_frames == m.mouth_frames + valid
                && next.head_frames == m.head_frames && next.unsupported_frames
                == m.unsupported_frames
            &&& model == SourceModel::HeadOffset ==> next.head_frames == m.head_frames + valid
                && next.mouth_frames == m.mouth_frames && next.unsupported_frames
                == m.unsupported_frames
            &&& model == SourceModel::Unsupported ==> next.unsupported_frames
                == m.unsupported_frames + valid && next.mouth_frames == m.mouth_frames
                && next.head_frames == m.head_frames
            &&& next.gain == m.gain && next.applied_gain == m.gain
            &&& next.was_valid == ready && next.previous_model == Some(model)
            &&& next.origin == m.origin && next.gain_override == m.gain_override
        }),
{
}

/// A new mixer has its gain and its origin, and has put out nothing; a new line of audio
/// has taken in nothing.
pub proof fn beginnings_are_empty(origin: i64, gain: u64)
    ensures
        ({
            let m = unmixed(origin, gain);
            &&& m.origin == origin && m.gain == gain && m.applied_gain == gain
            &&& !m.gain_override && !m.was_valid && m.previous_model is None
            &&& m.out_frames == 0 && m.muted == 0 && m.late == 0
            &&& m.mouth_frames == 0 && m.head_frames == 0 && m.unsupported_frames == 0
        }),
        ({
            let l = no_audio();
            &&& l.pending.len() == 0 && !l.started && !l.finished && !l.previous
            &&& l.discarded == 0 && l.discontinuities == 0
            &&& l.packet_time == 0 && l.packet_frame == 0 && l.next_frame == 0
            &&& l.channels == 0 && l.channel == 0 && l.expected_device == 0
        }),
{
}

/// A line that stopped behind a block expects the frame after it, and holds nothing.
pub proof fn stopped_lines_expect_the_next_frame(l: Line, first: u64)
    requires
        first + 256 <= u64::MAX,
    ensures
        stopped(l, first).next_frame == first + 256,
        stopped(l, first).pending.len() == 0,
        stopped(l, first).started == l.started && stopped(l, first).finished == l.finished
            && stopped(l, first).expected_device == l.expected_device && stopped(l, first).previous
            == l.previous && stopped(l, first).discarded == l.discarded,
{
}

/// A message is read back from either form in which it is stored, part by part.
pub proof fn stored_messages_are_read_back(t: Tree)
    ensures
        stored_message(t) matches Some(m) ==> if t is Array {
            &&& t->Array_0.len() == 3
            &&& t->Array_0[0] == Tree::Text(m.address)
            &&& t->Array_0[1] == Tree::Text(m.typetag)
            &&& t->Array_0[2] == Tree::Array(m.values)
        } else {
            &&& t.get("address"@) == Some(Tree::Text(m.address))
            &&& t.get("typetag"@) == Some(Tree::Text(m.typetag))
            &&& t.get("values"@) == Some(Tree::Array(m.values))
        },
        t is Object && t.text_at("address"@) is Some && t.text_at("typetag"@) is Some && t.items_at(
            "values"@,
        ) is Some ==> stored_message(t) is Some,
{
}

/// A list of stored messages gives each of them, in their order.
pub proof fn lists_of_messages_are_read_back(list: Seq<Tree>, i: int)
    requires
        stored_messages(Some(Tree::Array(list))) is Some,
        0 <= i < list.len(),
    ensures
        stored_messages(Some(Tree::Array(list)))->0.len() == list.len(),
        stored_message(list[i]) == Some(stored_messages(Some(Tree::Array(list)))->0[i]),
        stored_messages(None) is None,
{
}

/// What a checkpoint kept of an event is the event: the decibels of a change of the gain,
/// or the times and the messages of the others.
pub proof fn stored_events_are_read_back(event: Event, row: Tree)
    requires
        is_stored_event(event, row),
    ensures
        row.text_at("kind"@) == Some("gain_change"@) ==> event == Event::Gain(
            row.bits_at("gain_db"@),
        ),
        row.text_at("kind"@) != Some("gain_change"@) ==> {
            &&& event matches Event::Pose { at, snapshot, request_start, messages }
            &&& at == row.signed_at("receive_time_ns"@)
            &&& snapshot <==> row.text_at("kind"@) == Some("snapshot"@)
            &&& row.signed_at("request_start_ns"@) matches Some(t) ==> request_start == t
            &&& row.signed_at("request_start_ns"@) is None ==> request_start == 0
            &&& messages matches Some(list) ==> stored_messages(row.get("messages"@)) == Some(
                osc::signals(list@),
            )
        },
{
}

/// A checkpoint counts only before the first packet, and only if it says that it is one. It
/// gives each of its events with the time at which that takes effect, in their order, and
/// no more than 200,000.
pub proof fn checkpoints_give_their_events(started: bool, state: Tree, i: int)
    ensures
        checkpoint_of(started, state) is Ok <==> !started && state.text_at("kind"@) == Some(
            "derived_processor_checkpoint"@,
        ),
        pending_of(state) matches Ok(rows) ==> {
            &&& state.items_at("pending_events"@) matches Some(list)
            &&& rows.len() == list.len() && list.len() <= 200_000
            &&& 0 <= i < list.len() ==> list[i].signed_at("effective_time_ns"@) == Some(rows[i].0)
            &&& 0 <= i < list.len() && list[i].get("event"@) is Some ==> list[i].get("event"@)
                == Some(rows[i].1)
        },
        state.items_at("pending_events"@) is None ==> pending_of(state) == Err::<
            Seq<(i64, Tree)>,
            _,
        >(RestoreError::Events),
        state.items_at("pending_events"@) matches Some(list) && list.len() > 200_000
            ==> pending_of(state) == Err::<Seq<(i64, Tree)>, _>(RestoreError::Limit),
{
}

/// The history of a checkpoint is gone through step by step: an event is taken in, and a
/// position is looked at as of its time unless that has passed.
pub proof fn steps_say_what_they_ask(step: Tree, last: i64, at: i64)
    ensures
        step.text_at("kind"@) == Some("event"@) ==> step_asked(step, last) == Ok::<
            _,
            RestoreError,
        >(Step::Event),
        step.text_at("kind"@) == Some("pose_eval"@) && step.signed_at("source_time_ns"@) == Some(at)
            ==> step_asked(step, last) == Ok::<_, RestoreError>(
            if at > last {
                Step::Evaluate(at)
            } else {
                Step::Skip
            },
        ),
        step.text_at("kind"@) == Some("pose_eval"@) && step.signed_at("source_time_ns"@) is None
            ==> step_asked(step, last) == Err::<Step, _>(RestoreError::StepTime),
        step.text_at("kind"@) != Some("event"@) && step.text_at("kind"@) != Some("pose_eval"@)
            ==> step_asked(step, last) == Err::<Step, _>(RestoreError::Step),
{
    reveal_strlit("event");
    reveal_strlit("pose_eval");
    assert("event"@.len() == 5 && "pose_eval"@.len() == 9);
}

} // verus!
