//! Multicast DNS: the announcement of this service, the question for others, and
//! what is read out of the packets of others.
use crate::text::{ends_with, same, starts_with, utf8};
use vstd::prelude::*;
use vstd::slice::slice_subrange;
use vstd::utf8::*;

verus! {

broadcast use vstd::string::group_string_axioms;

/// Why a packet cannot be read.
#[derive(Clone, Copy, PartialEq, Eq, Structural, Debug)]
pub enum DnsError {
    /// The packet is too short or too long.
    Packet,
    /// The packet announces too many records.
    Records,
    /// The packet ends inside a number.
    Word,
    /// The packet ends inside a name.
    Name,
    /// A name continues at a place that does not come before it.
    Pointer,
    /// A label has a length that labels do not have.
    Label,
    /// The packet ends inside a label.
    ShortLabel,
    /// A label is not UTF-8.
    Utf8,
    /// A name is too long.
    Length,
    /// A name has too many parts.
    Recursion,
    /// The packet ends inside the head of a record.
    Record,
    /// The packet ends inside a record.
    Data,
    /// A service record is too short.
    Service,
}

/// What this service is announced as.
pub open spec fn service() -> Seq<char> {
    "_oscjson._tcp.local."@
}

/// What another program's service is announced as begins with this.
pub open spec fn client() -> Seq<char> {
    "VRChat-Client-"@
}

/// Two bytes, the more significant first.
pub open spec fn be16(v: int) -> Seq<u8> {
    seq![(v / 256 % 256) as u8, (v % 256) as u8]
}

/// Four bytes, the most significant first.
pub open spec fn be32(v: int) -> Seq<u8> {
    be16(v / 65536) + be16(v)
}

/// The number in two bytes.
pub open spec fn word(b: Seq<u8>, at: int) -> Result<u16, DnsError> {
    if at + 2 <= b.len() {
        Ok((b[at] * 256 + b[at + 1]) as u16)
    } else {
        Err(DnsError::Word)
    }
}

/// The number in four bytes.
pub open spec fn long(b: Seq<u8>, at: int) -> u32 {
    (b[at] * 0x100_0000 + b[at + 1] * 0x1_0000 + b[at + 2] * 0x100 + b[at + 3]) as u32
}

/// Text without the dots that end it.
pub open spec fn trimmed(t: Seq<u8>) -> Seq<u8>
    decreases t.len(),
{
    if t.len() > 0 && t.last() == 46 {
        trimmed(t.drop_last())
    } else {
        t
    }
}

/// Where the next dot is, or the end.
pub open spec fn dot_from(t: Seq<u8>, at: int) -> int
    decreases t.len() - at,
{
    if at >= t.len() || t[at] == 46 {
        at
    } else {
        dot_from(t, at + 1)
    }
}

/// The labels of a text from a place on, each behind its length.
pub open spec fn labels(t: Seq<u8>, at: int) -> Seq<u8>
    decreases t.len() - at,
{
    let stop = dot_from(t, at);
    let label = seq![((stop - at) % 256) as u8] + t.subrange(at, stop);
    if at <= stop < t.len() {
        label + labels(t, stop + 1)
    } else {
        label
    }
}

/// A name as it stands in a packet.
pub open spec fn name_bytes(text: Seq<u8>) -> Seq<u8> {
    labels(trimmed(text), 0) + seq![0u8]
}

/// A record as it stands in a packet.
#[verifier::opaque]
pub open spec fn record_bytes(owner: Seq<u8>, kind: u16, ttl: u32, data: Seq<u8>) -> Seq<u8> {
    name_bytes(owner) + be16(kind as int) + be16(
        if kind == 12 {
            1
        } else {
            0x8001
        },
    ) + be32(ttl as int) + be16(data.len() as int) + data
}

/// The announcement of a service: its name, its host and port, and a mark.
pub open spec fn announcement_bytes(
    instance: Seq<u8>,
    host: Seq<u8>,
    port: u16,
    ttl: u32,
    id: u16,
) -> Seq<u8> {
    be16(id as int) + be16(0x8400) + be16(0) + be16(1) + be16(0) + be16(3) + record_bytes(
        encode_utf8(service()),
        12,
        ttl,
        name_bytes(instance),
    ) + record_bytes(
        instance,
        33,
        ttl,
        seq![0u8, 0, 0, 0] + be16(port as int) + name_bytes(host),
    ) + record_bytes(host, 1, ttl, seq![127u8, 0, 0, 1]) + record_bytes(
        instance,
        16,
        ttl,
        seq![5u8, 86, 83, 77, 61, 49],
    )
}

/// The question for services.
pub open spec fn question_bytes() -> Seq<u8> {
    seq![0u8, 0, 0, 0, 0, 1, 0, 0, 0, 0, 0, 0] + name_bytes(encode_utf8(service())) + seq![
        0u8,
        12,
        0,
        1,
    ]
}

fn put16(out: &mut Vec<u8>, v: u16)
    ensures
        final(out)@ == old(out)@ + be16(v as int),
{
    out.push((v / 256) as u8);
    out.push((v % 256) as u8);
    assert(out@ =~= old(out)@ + be16(v as int));
}

proof fn be16_wraps(v: int)
    requires
        v >= 0,
    ensures
        be16(v % 65536) == be16(v),
{
    let q = v / 65536;
    let r = v % 65536;
    assert(v / 256 == 256 * q + r / 256);
    vstd::arithmetic::div_mod::lemma_mod_multiples_vanish(q, r / 256, 256);
    assert(v % 256 == r % 256);
}

fn put32(out: &mut Vec<u8>, v: u32)
    ensures
        final(out)@ == old(out)@ + be32(v as int),
{
    put16(out, (v / 65536) as u16);
    put16(out, (v % 65536) as u16);
    proof {
        be16_wraps(v as int);
        assert(out@ =~= old(out)@ + be32(v as int));
    }
}

proof fn dots_lie_ahead(t: Seq<u8>, at: int)
    requires
        0 <= at <= t.len(),
    ensures
        at <= dot_from(t, at) <= t.len(),
        forall|i: int| at <= i < dot_from(t, at) ==> t[i] != 46,
        dot_from(t, at) < t.len() ==> t[dot_from(t, at)] == 46,
    decreases t.len() - at,
{
    if at < t.len() && t[at] != 46 {
        dots_lie_ahead(t, at + 1);
    }
}

/// Appends a name.
pub fn name(out: &mut Vec<u8>, value: &str)
    ensures
        final(out)@ == old(out)@ + name_bytes(encode_utf8(value@)),
{
    let bytes = value.as_bytes();
    let mut end: usize = bytes.len();
    assert(bytes@.take(end as int) =~= bytes@);
    while end > 0 && bytes[end - 1] == 46
        invariant
            end <= bytes.len(),
            trimmed(bytes@) == trimmed(bytes@.take(end as int)),
        decreases end,
    {
        assert(bytes@.take(end as int).drop_last() =~= bytes@.take(end - 1));
        end -= 1;
    }
    let ghost t = bytes@.take(end as int);
    assert(trimmed(bytes@) == t);
    let ghost start = out@;
    let mut at: usize = 0;
    assert(out@ =~= start + Seq::<u8>::empty());
    loop
        invariant_except_break
            at <= end,
            out@ + labels(t, at as int) == start + labels(t, 0),
        invariant
            end <= bytes.len(),
            t == bytes@.take(end as int),
        ensures
            out@ == start + labels(t, 0),
        decreases end - at,
    {
        let mut stop: usize = at;
        while stop < end && bytes[stop] != 46
            invariant
                end <= bytes.len(),
                t == bytes@.take(end as int),
                at <= stop <= end,
                dot_from(t, at as int) == dot_from(t, stop as int),
            decreases end - stop,
        {
            stop += 1;
        }
        let ghost was = out@;
        out.push(((stop - at) % 256) as u8);
        out.extend_from_slice(slice_subrange(bytes, at, stop));
        let ghost label = seq![((stop - at) % 256) as u8] + t.subrange(at as int, stop as int);
        proof {
            assert(bytes@.subrange(at as int, stop as int) =~= t.subrange(at as int, stop as int));
            assert(out@ =~= was + label);
        }
        if stop == end {
            break;
        }
        proof {
            assert(was + (label + labels(t, stop + 1)) =~= out@ + labels(t, stop + 1));
        }
        at = stop + 1;
    }
    out.push(0);
    assert(out@ =~= start + name_bytes(bytes@));
}

/// Appends a record.
pub fn record(out: &mut Vec<u8>, owner: &str, kind: u16, ttl: u32, data: &[u8])
    ensures
        final(out)@ == old(out)@ + record_bytes(encode_utf8(owner@), kind, ttl, data@),
{
    let ghost start = out@;
    name(out, owner);
    put16(out, kind);
    put16(
        out,
        if kind == 12 {
            1
        } else {
            0x8001
        },
    );
    put32(out, ttl);
    let len: usize = data.len() % 65536;
    put16(out, len as u16);
    out.extend_from_slice(data);
    proof {
        reveal(record_bytes);
        be16_wraps(data.len() as int);
        assert(out@ =~= start + record_bytes(encode_utf8(owner@), kind, ttl, data@));
    }
}

/// The announcement of a service on a port of a host.
pub fn announcement(instance: &str, host: &str, port: u16, ttl: u32, id: u16) -> (b: Vec<u8>)
    ensures
        b@ == announcement_bytes(encode_utf8(instance@), encode_utf8(host@), port, ttl, id),
{
    let mut b: Vec<u8> = Vec::new();
    put16(&mut b, id);
    put16(&mut b, 0x8400);
    put16(&mut b, 0);
    put16(&mut b, 1);
    put16(&mut b, 0);
    put16(&mut b, 3);
    let mut ptr: Vec<u8> = Vec::new();
    name(&mut ptr, instance);
    assert(ptr@ =~= name_bytes(encode_utf8(instance@)));
    record(&mut b, "_oscjson._tcp.local.", 12, ttl, &ptr);
    let mut srv: Vec<u8> = Vec::new();
    srv.extend_from_slice(&[0, 0, 0, 0]);
    put16(&mut srv, port);
    name(&mut srv, host);
    assert(srv@ =~= seq![0u8, 0, 0, 0] + be16(port as int) + name_bytes(encode_utf8(host@)));
    record(&mut b, instance, 33, ttl, &srv);
    record(&mut b, host, 1, ttl, &[127, 0, 0, 1]);
    record(&mut b, instance, 16, ttl, &[5, 86, 83, 77, 61, 49]);
    assert(b@ =~= announcement_bytes(
        encode_utf8(instance@),
        encode_utf8(host@),
        port,
        ttl,
        id,
    ));
    b
}

/// The question for services.
pub fn question() -> (b: Vec<u8>)
    ensures
        b@ == question_bytes(),
{
    let mut b: Vec<u8> = Vec::new();
    b.extend_from_slice(&[0, 0, 0, 0, 0, 1, 0, 0, 0, 0, 0, 0]);
    name(&mut b, "_oscjson._tcp.local.");
    b.extend_from_slice(&[0, 12, 0, 1]);
    assert(b@ =~= question_bytes());
    b
}

/// The name that continues at `cursor`: its bytes, with a dot behind each label, and
/// where the name ends in the packet. `end` is where it was left for a place
/// before it, if it was. At most `steps` labels and places are read.
pub open spec fn named(
    b: Seq<u8>,
    cursor: int,
    end: Option<int>,
    text: Seq<u8>,
    steps: nat,
) -> Result<(Seq<u8>, int), DnsError>
    decreases steps,
{
    if steps == 0 {
        Err(DnsError::Recursion)
    } else if cursor >= b.len() {
        Err(DnsError::Name)
    } else if b[cursor] >= 0xc0 {
        match word(b, cursor) {
            Err(e) => Err(e),
            Ok(w) => if w % 0x4000 >= cursor {
                Err(DnsError::Pointer)
            } else {
                named(
                    b,
                    w as int % 0x4000,
                    Some(
                        if end is Some {
                            end->0
                        } else {
                            cursor + 2
                        },
                    ),
                    text,
                    (steps - 1) as nat,
                )
            },
        }
    } else if b[cursor] > 63 {
        Err(DnsError::Label)
    } else if b[cursor] == 0 {
        Ok(
            (
                text,
                if end is Some {
                    end->0
                } else {
                    cursor + 1
                },
            ),
        )
    } else {
        let next = cursor + 1 + b[cursor];
        if next > b.len() {
            Err(DnsError::ShortLabel)
        } else if !valid_utf8(b.subrange(cursor + 1, next)) {
            Err(DnsError::Utf8)
        } else {
            let more = text + b.subrange(cursor + 1, next) + seq![46u8];
            if more.len() > 255 {
                Err(DnsError::Length)
            } else {
                named(b, next, end, more, (steps - 1) as nat)
            }
        }
    }
}

/// The name at a place, and where it ends.
pub open spec fn name_here(b: Seq<u8>, at: int) -> Result<(Seq<u8>, int), DnsError> {
    named(b, at, None, Seq::empty(), 128)
}

/// A question asks for this service, its instance or its host.
pub open spec fn concerns(
    n: Seq<char>,
    kind: u16,
    instance: Seq<char>,
    host: Seq<char>,
) -> bool {
    ||| n == service() && (kind == 12 || kind == 255)
    ||| n == instance && (kind == 16 || kind == 33 || kind == 255)
    ||| n == host && (kind == 1 || kind == 255)
}

/// What `n` questions from a place on ask: where they end, whether one of them is to
/// be answered, and whether one of those wants the answer for itself.
pub open spec fn questions(
    b: Seq<u8>,
    at: int,
    n: nat,
    instance: Seq<char>,
    host: Seq<char>,
) -> Result<(int, bool, bool), DnsError>
    decreases n,
{
    if n == 0 {
        Ok((at, false, false))
    } else {
        match questions(b, at, (n - 1) as nat, instance, host) {
            Err(e) => Err(e),
            Ok((here, reply, unicast)) => match name_here(b, here) {
                Err(e) => Err(e),
                Ok((text, end)) => match word(b, end) {
                    Err(e) => Err(e),
                    Ok(kind) => match word(b, end + 2) {
                        Err(e) => Err(e),
                        Ok(class) => {
                            let ours = concerns(decode_utf8(text), kind, instance, host);
                            Ok((end + 4, reply || ours, unicast || (ours && class >= 0x8000)))
                        },
                    },
                },
            },
        }
    }
}

/// A record names another program's service and is still good.
pub open spec fn offers(n: Seq<char>, kind: u16, ttl: u32) -> bool {
    kind == 33 && ttl > 0 && crate::text::begins(n, client()) && crate::text::ends(n, service())
}

/// The ports that `n` records from a place on offer, each with its time to live, and
/// where the records end.
pub open spec fn records(b: Seq<u8>, at: int, n: nat) -> Result<(int, Seq<(u16, u32)>), DnsError>
    decreases n,
{
    if n == 0 {
        Ok((at, Seq::empty()))
    } else {
        match records(b, at, (n - 1) as nat) {
            Err(e) => Err(e),
            Ok((here, ports)) => match name_here(b, here) {
                Err(e) => Err(e),
                Ok((text, end)) => match word(b, end) {
                    Err(e) => Err(e),
                    Ok(kind) => if end + 10 > b.len() {
                        Err(DnsError::Record)
                    } else {
                        let ttl = long(b, end + 4);
                        let len = word(b, end + 8)->Ok_0;
                        if end + 10 + len > b.len() {
                            Err(DnsError::Data)
                        } else if !offers(decode_utf8(text), kind, ttl) {
                            Ok((end + 10 + len, ports))
                        } else if len < 7 {
                            Err(DnsError::Service)
                        } else {
                            let port = word(b, end + 14)->Ok_0;
                            Ok(
                                (
                                    end + 10 + len,
                                    if port > 0 {
                                        ports.push((port, ttl))
                                    } else {
                                        ports
                                    },
                                ),
                            )
                        }
                    },
                },
            },
        }
    }
}

/// What a packet says.
#[derive(Debug)]
pub struct DnsResult {
    /// The ports that are offered, each with its time to live in seconds.
    pub ports: Vec<(u16, u32)>,
    /// The packet asks for this service.
    pub reply: bool,
    /// The answer is for the asker alone.
    pub unicast: bool,
    pub id: u16,
}

/// How many questions and records a packet announces.
pub open spec fn counts(b: Seq<u8>) -> (int, int) {
    (
        word(b, 4)->Ok_0 as int,
        word(b, 6)->Ok_0 + word(b, 8)->Ok_0 + word(b, 10)->Ok_0,
    )
}

/// What a packet says: the ports, whether to reply, and whether to the asker alone.
pub open spec fn parsed(b: Seq<u8>, instance: Seq<char>, host: Seq<char>) -> Result<
    (Seq<(u16, u32)>, bool, bool),
    DnsError,
> {
    if b.len() < 12 || b.len() > 65536 {
        Err(DnsError::Packet)
    } else if counts(b).0 + counts(b).1 > 512 {
        Err(DnsError::Records)
    } else {
        match questions(b, 12, counts(b).0 as nat, instance, host) {
            Err(e) => Err(e),
            Ok((at, reply, unicast)) => match records(b, at, counts(b).1 as nat) {
                Err(e) => Err(e),
                Ok((_, ports)) => Ok((ports, reply, unicast)),
            },
        }
    }
}

/// The number in two bytes.
pub fn u16_at(b: &[u8], at: usize) -> (res: Result<u16, DnsError>)
    requires
        at <= usize::MAX - 2,
    ensures
        res == word(b@, at as int),
{
    if at + 2 > b.len() {
        return Err(DnsError::Word);
    }
    Ok(b[at] as u16 * 256 + b[at + 1] as u16)
}

/// Reads the name at a place, which then is where the name ends.
pub fn name_at(b: &[u8], at: &mut usize) -> (res: Result<String, DnsError>)
    requires
        b.len() <= 65536,
    ensures
        res matches Err(e) ==> name_here(b@, *old(at) as int) == Err::<(Seq<u8>, int), _>(e),
        res matches Ok(text) ==> (name_here(b@, *old(at) as int) matches Ok(r) && text@
            == decode_utf8(r.0) && *final(at) == r.1 && *final(at) <= b.len()),
{
    let mut cursor: usize = *at;
    let mut end: Option<usize> = None;
    let mut text: Vec<u8> = Vec::new();
    let mut steps: usize = 128;
    let ghost want = name_here(b@, *at as int);
    proof {
        assert(valid_utf8(text@));
        assert(text@ =~= Seq::<u8>::empty());
    }
    while steps > 0
        invariant
            b.len() <= 65536,
            steps <= 128,
            want == name_here(b@, *old(at) as int),
            end matches Some(e) ==> e <= b.len(),
            want == named(
                b@,
                cursor as int,
                match end {
                    Some(e) => Some(e as int),
                    None => None,
                },
                text@,
                steps as nat,
            ),
            valid_utf8(text@),
            text@.len() <= 255,
        decreases steps,
    {
        if cursor >= b.len() {
            return Err(DnsError::Name);
        }
        let n: u8 = b[cursor];
        if n >= 0xc0 {
            let p: usize = match u16_at(b, cursor) {
                Ok(w) => (w % 0x4000) as usize,
                Err(e) => {
                    return Err(e);
                },
            };
            if end.is_none() {
                end = Some(cursor + 2);
            }
            if p >= cursor {
                return Err(DnsError::Pointer);
            }
            cursor = p;
            steps -= 1;
            continue;
        }
        if n > 63 {
            return Err(DnsError::Label);
        }
        cursor += 1;
        if n == 0 {
            *at = match end {
                Some(e) => e,
                None => cursor,
            };
            return match utf8(&text) {
                Some(text) => Ok(text),
                None => Err(DnsError::Utf8),
            };
        }
        if cursor + n as usize > b.len() {
            return Err(DnsError::ShortLabel);
        }
        let label = slice_subrange(b, cursor, cursor + n as usize);
        if utf8(label).is_none() {
            return Err(DnsError::Utf8);
        }
        let ghost had = text@;
        text.extend_from_slice(label);
        text.push(46);
        proof {
            assert(text@ =~= had + label@ + seq![46u8]);
            dot_is_text();
            valid_utf8_concat(had, label@);
            valid_utf8_concat(had + label@, seq![46u8]);
        }
        if text.len() > 255 {
            return Err(DnsError::Length);
        }
        cursor += n as usize;
        steps -= 1;
    }
    Err(DnsError::Recursion)
}

proof fn dot_is_text()
    ensures
        valid_utf8(seq![46u8]),
{
    reveal_with_fuel(valid_utf8, 3);
    let dot = seq![46u8];
    assert(46u8 & 0x7f == 46) by (bit_vector);
    assert(pop_first_scalar(dot) =~= Seq::<u8>::empty());
}

proof fn bad_questions_stay(
    b: Seq<u8>,
    at: int,
    n: nat,
    m: nat,
    instance: Seq<char>,
    host: Seq<char>,
)
    requires
        n <= m,
        questions(b, at, n, instance, host) is Err,
    ensures
        questions(b, at, m, instance, host) == questions(b, at, n, instance, host),
    decreases m,
{
    if n < m {
        bad_questions_stay(b, at, n, (m - 1) as nat, instance, host);
    }
}

proof fn bad_records_stay(b: Seq<u8>, at: int, n: nat, m: nat)
    requires
        n <= m,
        records(b, at, n) is Err,
    ensures
        records(b, at, m) == records(b, at, n),
    decreases m,
{
    if n < m {
        bad_records_stay(b, at, n, (m - 1) as nat);
    }
}

/// Reads one question: whether it is to be answered, and whether for the asker alone.
fn read_question(b: &[u8], at: &mut usize, instance: &str, host: &str) -> (res: Result<
    (bool, bool),
    DnsError,
>)
    requires
        b.len() <= 65536,
    ensures
        res matches Ok(_) ==> *final(at) <= b.len(),
        forall|first: int, n: nat|
            (questions(b@, first, n, instance@, host@) matches Ok(r) && r.0 == *old(at)) ==> ({
                let next = #[trigger] questions(b@, first, n + 1, instance@, host@);
                let before = questions(b@, first, n, instance@, host@)->Ok_0;
                match res {
                    Err(e) => next == Err::<(int, bool, bool), _>(e),
                    Ok((ours, alone)) => next == Ok::<_, DnsError>(
                        (*final(at) as int, before.1 || ours, before.2 || (ours && alone)),
                    ),
                }
            }),
{
    let n = match name_at(b, at) {
        Ok(n) => n,
        Err(e) => {
            return Err(e);
        },
    };
    let kind: u16 = match u16_at(b, *at) {
        Ok(kind) => kind,
        Err(e) => {
            return Err(e);
        },
    };
    let class: u16 = match u16_at(b, *at + 2) {
        Ok(class) => class,
        Err(e) => {
            return Err(e);
        },
    };
    *at = *at + 4;
    let ours = ((kind == 12 || kind == 255) && same(&n, "_oscjson._tcp.local.")) || ((kind == 16
        || kind == 33 || kind == 255) && same(&n, instance)) || ((kind == 1 || kind == 255) && same(
        &n,
        host,
    ));
    Ok((ours, class >= 0x8000))
}

/// Reads one record: the port that it offers, if any, with its time to live.
fn read_record(b: &[u8], at: &mut usize) -> (res: Result<Option<(u16, u32)>, DnsError>)
    requires
        b.len() <= 65536,
    ensures
        res matches Ok(_) ==> *final(at) <= b.len(),
        forall|first: int, n: nat|
            (records(b@, first, n) matches Ok(r) && r.0 == *old(at)) ==> ({
                let next = #[trigger] records(b@, first, n + 1);
                let ports = records(b@, first, n)->Ok_0.1;
                match res {
                    Err(e) => next == Err::<(int, Seq<(u16, u32)>), _>(e),
                    Ok(Some(port)) => next == Ok::<_, DnsError>(
                        (*final(at) as int, ports.push(port)),
                    ),
                    Ok(None) => next == Ok::<_, DnsError>((*final(at) as int, ports)),
                }
            }),
{
    let n = match name_at(b, at) {
        Ok(n) => n,
        Err(e) => {
            return Err(e);
        },
    };
    let here: usize = *at;
    let kind: u16 = match u16_at(b, here) {
        Ok(kind) => kind,
        Err(e) => {
            return Err(e);
        },
    };
    if here + 10 > b.len() {
        return Err(DnsError::Record);
    }
    let ttl: u32 = b[here + 4] as u32 * 0x100_0000 + b[here + 5] as u32 * 0x1_0000 + b[here
        + 6] as u32 * 0x100 + b[here + 7] as u32;
    let len: usize = b[here + 8] as usize * 256 + b[here + 9] as usize;
    if here + 10 + len > b.len() {
        return Err(DnsError::Data);
    }
    *at = here + 10 + len;
    if kind == 33 && ttl > 0 && starts_with(&n, "VRChat-Client-") && ends_with(
        &n,
        "_oscjson._tcp.local.",
    ) {
        if len < 7 {
            return Err(DnsError::Service);
        }
        let port: u16 = b[here + 14] as u16 * 256 + b[here + 15] as u16;
        if port > 0 {
            return Ok(Some((port, ttl)));
        }
    }
    Ok(None)
}

/// Reads a packet. It is to be answered if it asks for this service, its instance or
/// its host.
pub fn parse_dns(b: &[u8], instance: &str, host: &str) -> (res: Result<DnsResult, DnsError>)
    ensures
        res matches Err(e) ==> parsed(b@, instance@, host@) == Err::<
            (Seq<(u16, u32)>, bool, bool),
            _,
        >(e),
        res matches Ok(r) ==> parsed(b@, instance@, host@) == Ok::<_, DnsError>(
            (r.ports@, r.reply, r.unicast),
        ) && Ok::<_, DnsError>(r.id) == word(b@, 0),
{
    if b.len() < 12 || b.len() > 65536 {
        return Err(DnsError::Packet);
    }
    let id: u16 = b[0] as u16 * 256 + b[1] as u16;
    let asked: usize = b[4] as usize * 256 + b[5] as usize;
    let given: usize = (b[6] as usize * 256 + b[7] as usize) + (b[8] as usize * 256 + b[9] as usize)
        + (b[10] as usize * 256 + b[11] as usize);
    assert(counts(b@) == (asked as int, given as int));
    if asked + given > 512 {
        return Err(DnsError::Records);
    }
    let mut at: usize = 12;
    let mut reply = false;
    let mut unicast = false;
    let mut i: usize = 0;
    while i < asked
        invariant
            12 <= b.len() <= 65536,
            i <= asked,
            at <= b.len(),
            counts(b@) == (asked as int, given as int),
            asked + given <= 512,
            questions(b@, 12, i as nat, instance@, host@) == Ok::<_, DnsError>(
                (at as int, reply, unicast),
            ),
        decreases asked - i,
    {
        match read_question(b, &mut at, instance, host) {
            Ok((ours, alone)) => {
                assert(questions(b@, 12, (i + 1) as nat, instance@, host@) == questions(
                    b@,
                    12,
                    i as nat + 1,
                    instance@,
                    host@,
                ));
                if ours {
                    reply = true;
                    if alone {
                        unicast = true;
                    }
                }
            },
            Err(e) => {
                proof {
                    assert(questions(b@, 12, i as nat + 1, instance@, host@) is Err);
                    bad_questions_stay(b@, 12, i as nat + 1, asked as nat, instance@, host@);
                }
                return Err(e);
            },
        }
        i += 1;
    }
    let ghost first = at as int;
    let mut ports: Vec<(u16, u32)> = Vec::new();
    let mut i: usize = 0;
    assert(ports@ =~= Seq::<(u16, u32)>::empty());
    while i < given
        invariant
            12 <= b.len() <= 65536,
            i <= given,
            at <= b.len(),
            counts(b@) == (asked as int, given as int),
            asked + given <= 512,
            questions(b@, 12, asked as nat, instance@, host@) == Ok::<_, DnsError>(
                (first, reply, unicast),
            ),
            records(b@, first, i as nat) == Ok::<_, DnsError>((at as int, ports@)),
        decreases given - i,
    {
        let ghost here = at;
        match read_record(b, &mut at) {
            Ok(found) => {
                assert(records(b@, first, (i + 1) as nat) == records(b@, first, i as nat + 1));
                if let Some(port) = found {
                    ports.push(port);
                }
            },
            Err(e) => {
                proof {
                    assert(records(b@, first, i as nat + 1) is Err);
                    bad_records_stay(b@, first, i as nat + 1, given as nat);
                }
                return Err(e);
            },
        }
        i += 1;
    }
    Ok(DnsResult { ports, reply, unicast, id })
}

/// The labels of a text from a place on have lengths that labels have.
pub open spec fn has_labels(t: Seq<u8>, at: int) -> bool
    decreases t.len() - at,
{
    let stop = dot_from(t, at);
    1 <= stop - at <= 63 && (stop < t.len() ==> has_labels(t, stop + 1))
}

/// A text is a full domain name: labels of 1 to 63 bytes with a dot behind each, and
/// no more than 255 bytes in all.
pub open spec fn is_domain(t: Seq<u8>) -> bool {
    &&& 2 <= t.len() <= 255
    &&& t.last() == 46
    &&& has_labels(t.drop_last(), 0)
}

proof fn after_dot(t: Seq<u8>)
    requires
        valid_utf8(t),
        t.len() > 0,
        t[0] == 46,
    ensures
        valid_utf8(t.subrange(1, t.len() as int)),
{
    assert(46u8 & 0x7f == 46) by (bit_vector);
    assert(pop_first_scalar(t) =~= t.subrange(1, t.len() as int));
}

/// The labels that stand in a packet are read back.
proof fn labels_come_back(b: Seq<u8>, cursor: int, t: Seq<u8>, at: int, steps: nat)
    requires
        is_domain(t),
        0 <= at < t.len(),
        has_labels(t.drop_last(), at),
        valid_utf8(t.subrange(at, t.len() as int)),
        2 * steps >= t.len() - at + 1,
        0 <= cursor,
        cursor + labels(t.drop_last(), at).len() + 1 <= b.len(),
        b.subrange(cursor, cursor + labels(t.drop_last(), at).len() + 1) == labels(
            t.drop_last(),
            at,
        ) + seq![0u8],
    ensures
        named(b, cursor, None, t.subrange(0, at), steps) == Ok::<_, DnsError>(
            (t, cursor + labels(t.drop_last(), at).len() + 1),
        ),
    decreases t.len() - at,
{
    let u = t.drop_last();
    dots_lie_ahead(u, at);
    let stop = dot_from(u, at);
    let n = stop - at;
    let all = labels(u, at) + seq![0u8];
    let part = b.subrange(cursor, cursor + all.len());
    assert(part == all);
    assert(part[0] == b[cursor]);
    assert(b[cursor] == n);
    let next = cursor + 1 + n;
    assert(b.subrange(cursor + 1, next) =~= u.subrange(at, stop)) by {
        let here = b.subrange(cursor + 1, next);
        assert forall|i: int| 0 <= i < n implies here[i] == u.subrange(at, stop)[i] by {
            assert(part[1 + i] == all[1 + i]);
        }
    }
    let rest = t.subrange(at, t.len() as int);
    assert(rest[n] == 46);
    is_char_boundary_iff_not_is_continuation_byte(rest, n);
    valid_utf8_split(rest, n);
    assert(rest.subrange(0, n) =~= u.subrange(at, stop));
    let tail = rest.subrange(n, rest.len() as int);
    after_dot(tail);
    let more = t.subrange(0, at) + b.subrange(cursor + 1, next) + seq![46u8];
    assert(more =~= t.subrange(0, stop + 1));
    if stop < u.len() {
        assert(tail.subrange(1, tail.len() as int) =~= t.subrange(stop + 1, t.len() as int));
        let others = labels(u, stop + 1) + seq![0u8];
        assert(b.subrange(next, next + others.len()) =~= others) by {
            let here = b.subrange(next, next + others.len());
            assert forall|i: int| 0 <= i < others.len() implies here[i] == others[i] by {
                assert(part[1 + n + i] == all[1 + n + i]);
            }
        }
        labels_come_back(b, next, t, stop + 1, (steps - 1) as nat);
    } else {
        assert(part[1 + n] == all[1 + n]);
        assert(b[next] == 0);
        assert(more =~= t);
        assert(named(b, next, None, t, (steps - 1) as nat) == Ok::<_, DnsError>((t, next + 1)));
    }
    assert(named(b, cursor, None, t.subrange(0, at), steps) == named(
        b,
        next,
        None,
        more,
        (steps - 1) as nat,
    ));
}

/// A domain name survives a packet: wherever in a packet it is written, it is read
/// back as it was, and the reading ends where the writing did.
pub proof fn name_comes_back(b: Seq<u8>, at: int, text: Seq<char>)
    requires
        is_domain(encode_utf8(text)),
        0 <= at,
        at + name_bytes(encode_utf8(text)).len() <= b.len(),
        b.subrange(at, at + name_bytes(encode_utf8(text)).len()) == name_bytes(encode_utf8(text)),
    ensures
        name_here(b, at) == Ok::<_, DnsError>(
            (encode_utf8(text), at + name_bytes(encode_utf8(text)).len()),
        ),
        decode_utf8(encode_utf8(text)) == text,
{
    let t = encode_utf8(text);
    encode_utf8_valid_utf8(text);
    encode_utf8_decode_utf8(text);
    let u = t.drop_last();
    last_label(u, 0);
    assert(trimmed(t) == trimmed(u));
    assert(t.subrange(0, t.len() as int) =~= t);
    assert(t.subrange(0, 0) =~= Seq::<u8>::empty());
    labels_come_back(b, at, t, 0, 128);
}

/// A text made of labels does not end in a dot.
proof fn last_label(u: Seq<u8>, at: int)
    requires
        0 <= at <= u.len(),
        has_labels(u, at),
    ensures
        u.len() > 0,
        u.last() != 46,
    decreases u.len() - at,
{
    dots_lie_ahead(u, at);
    let stop = dot_from(u, at);
    if stop < u.len() {
        last_label(u, stop + 1);
    }
}

/// The parts of a record that stands in a packet are read back.
#[verifier::spinoff_prover]
proof fn parts_of_record(b: Seq<u8>, at: int, owner: Seq<char>, kind: u16, ttl: u32, data: Seq<u8>)
    requires
        is_domain(encode_utf8(owner)),
        data.len() < 65536,
        0 <= at,
        at + record_bytes(encode_utf8(owner), kind, ttl, data).len() <= b.len(),
        b.subrange(at, at + record_bytes(encode_utf8(owner), kind, ttl, data).len())
            == record_bytes(encode_utf8(owner), kind, ttl, data),
    ensures
        ({
            let t = encode_utf8(owner);
            let end = at + name_bytes(t).len();
            &&& record_bytes(t, kind, ttl, data).len() == name_bytes(t).len() + 10 + data.len()
            &&& name_here(b, at) == Ok::<_, DnsError>((t, end))
            &&& decode_utf8(t) == owner
            &&& word(b, end) == Ok::<_, DnsError>(kind)
            &&& long(b, end + 4) == ttl
            &&& word(b, end + 8) == Ok::<_, DnsError>(data.len() as u16)
            &&& data.len() >= 7 ==> word(b, end + 14) == word(data, 4)
        }),
{
    reveal(record_bytes);
    let t = encode_utf8(owner);
    let nb = name_bytes(t);
    let all = record_bytes(t, kind, ttl, data);
    let part = b.subrange(at, at + all.len());
    assert(part == all);
    assert(b.subrange(at, at + nb.len()) =~= nb) by {
        let here = b.subrange(at, at + nb.len());
        assert forall|i: int| 0 <= i < nb.len() implies here[i] == nb[i] by {
            assert(part[i] == all[i]);
        }
    }
    name_comes_back(b, at, owner);
    let end = at + nb.len();
    let m = nb.len() as int;
    assert(part[m] == all[m] && part[m + 1] == all[m + 1]);
    assert(part[m + 4] == all[m + 4] && part[m + 5] == all[m + 5] && part[m + 6] == all[m + 6]
        && part[m + 7] == all[m + 7]);
    assert(part[m + 8] == all[m + 8] && part[m + 9] == all[m + 9]);
    assert(word(b, end) == Ok::<_, DnsError>(kind));
    assert(long(b, end + 4) == ttl) by {
        let v = ttl as int;
        assert(v == (v / 65536 / 256 % 256) * 0x100_0000 + (v / 65536 % 256) * 0x1_0000 + (v / 256
            % 256) * 0x100 + v % 256);
    }
    assert(word(b, end + 8) == Ok::<_, DnsError>(data.len() as u16));
    if data.len() >= 7 {
        assert(part[m + 14] == all[m + 14] && part[m + 15] == all[m + 15]);
        assert(b[end + 14] == data[4] && b[end + 15] == data[5]);
        assert(word(b, end + 14) == word(data, 4));
    }
}

/// A record that stands in a packet is read back.
#[verifier::spinoff_prover]
proof fn record_comes_back(
    b: Seq<u8>,
    first: int,
    n: nat,
    at: int,
    ports: Seq<(u16, u32)>,
    owner: Seq<char>,
    kind: u16,
    ttl: u32,
    data: Seq<u8>,
)
    requires
        records(b, first, n) == Ok::<_, DnsError>((at, ports)),
        is_domain(encode_utf8(owner)),
        data.len() < 65536,
        0 <= at,
        at + record_bytes(encode_utf8(owner), kind, ttl, data).len() <= b.len(),
        b.subrange(at, at + record_bytes(encode_utf8(owner), kind, ttl, data).len())
            == record_bytes(encode_utf8(owner), kind, ttl, data),
        offers(owner, kind, ttl) ==> data.len() >= 7,
    ensures
        records(b, first, n + 1) == Ok::<_, DnsError>(
            (
                at + record_bytes(encode_utf8(owner), kind, ttl, data).len(),
                if offers(owner, kind, ttl) && word(data, 4)->Ok_0 > 0 {
                    ports.push((word(data, 4)->Ok_0, ttl))
                } else {
                    ports
                },
            ),
        ),
{
    parts_of_record(b, at, owner, kind, ttl, data);
}

proof fn service_is_a_domain()
    ensures
        is_domain(encode_utf8(service())),
{
    let text = service();
    reveal_strlit("_oscjson._tcp.local.");
    assert(text.len() == 20);
    assert(is_ascii_chars(text));
    is_ascii_chars_encode_utf8(text);
    let t = encode_utf8(text);
    let u = t.drop_last();
    reveal_with_fuel(dot_from, 10);
    assert(t[8] == 46 && t[13] == 46 && t[19] == 46);
    assert(dot_from(u, 14) == 19);
    assert(dot_from(u, 9) == 13);
    assert(dot_from(u, 0) == 8);
    reveal_with_fuel(has_labels, 4);
}

/// Under which number a question is answered, and whether to the asker alone.
pub open spec fn answered_as(unicast: bool, id: u16) -> (u16, bool) {
    if unicast {
        (id, true)
    } else {
        (0u16, false)
    }
}

/// How a question is answered: under which number, and whether to the asker alone. One
/// that is not for the asker alone goes to all, without a number.
pub fn reply_to_asker(unicast: bool, id: u16) -> (res: (u16, bool))
    ensures
        res == answered_as(unicast, id),
{
    if unicast {
        (id, true)
    } else {
        (0, false)
    }
}

/// The ports that an announcement offers: its own for its time, if it is a client's. One
/// without a port or without a time, which is a goodbye, offers none.
pub open spec fn announced(instance: Seq<char>, port: u16, ttl: u32) -> Seq<(u16, u32)> {
    if crate::text::begins(instance, client()) && crate::text::ends(instance, service()) && port > 0
        && ttl > 0 {
        seq![(port, ttl)]
    } else {
        Seq::empty()
    }
}

/// Discovery works from end to end: whoever announces a service as a client does, on
/// a port and for a time, is found on that port for that time. Any other name, a port
/// that is 0 and a goodbye offer nothing. No announcement is answered.
#[verifier::spinoff_prover]
pub proof fn announcement_is_found(
    instance: Seq<char>,
    host: Seq<char>,
    port: u16,
    ttl: u32,
    id: u16,
    own_instance: Seq<char>,
    own_host: Seq<char>,
)
    requires
        is_domain(encode_utf8(instance)),
        is_domain(encode_utf8(host)),
    ensures
        parsed(
            announcement_bytes(encode_utf8(instance), encode_utf8(host), port, ttl, id),
            own_instance,
            own_host,
        ) == Ok::<_, DnsError>((announced(instance, port, ttl), false, false)),
        word(
            announcement_bytes(encode_utf8(instance), encode_utf8(host), port, ttl, id),
            0,
        ) == Ok::<_, DnsError>(id),
{
    let i = encode_utf8(instance);
    let h = encode_utf8(host);
    let b = announcement_bytes(i, h, port, ttl, id);
    parts_of_announcement(i, h, port, ttl, id);
    head_of_announcement(b, id);
    name_is_short(i);
    name_is_short(h);
    service_is_a_domain();
    name_is_short(encode_utf8(service()));
    record_len(encode_utf8(service()), 12, ttl, name_bytes(i));
    record_len(i, 33, ttl, service_data(port, h));
    record_len(h, 1, ttl, seq![127u8, 0, 0, 1]);
    record_len(i, 16, ttl, seq![5u8, 86, 83, 77, 61, 49]);
    found_in(b, instance, host, port, ttl);
    assert(questions(b, 12, 0, own_instance, own_host) == Ok::<_, DnsError>(
        (12int, false, false),
    ));
}

/// What the first twelve bytes of an announcement say.
proof fn head_of_announcement(b: Seq<u8>, id: u16)
    requires
        b.len() >= 12,
        b.subrange(0, 12) == be16(id as int) + be16(0x8400) + be16(0) + be16(1) + be16(0) + be16(3),
    ensures
        word(b, 0) == Ok::<_, DnsError>(id),
        word(b, 2) == Ok::<_, DnsError>(0x8400u16),
        word(b, 4) == Ok::<_, DnsError>(0u16),
        word(b, 6) == Ok::<_, DnsError>(1u16),
        word(b, 8) == Ok::<_, DnsError>(0u16),
        word(b, 10) == Ok::<_, DnsError>(3u16),
        counts(b) == (0int, 4int),
{
    let head = be16(id as int) + be16(0x8400) + be16(0) + be16(1) + be16(0) + be16(3);
    assert forall|k: int| 0 <= k < 12 implies b[k] == head[k] by {
        assert(b.subrange(0, 12)[k] == head[k]);
    }
}

spec fn service_data(port: u16, host: Seq<u8>) -> Seq<u8> {
    seq![0u8, 0, 0, 0] + be16(port as int) + name_bytes(host)
}

proof fn pieces(head: Seq<u8>, r1: Seq<u8>, r2: Seq<u8>, r3: Seq<u8>, r4: Seq<u8>)
    ensures
        ({
            let b = head + r1 + r2 + r3 + r4;
            let a1 = head.len() as int;
            let a2 = a1 + r1.len();
            let a3 = a2 + r2.len();
            let a4 = a3 + r3.len();
            &&& b.len() == a4 + r4.len()
            &&& b.subrange(0, a1) == head
            &&& b.subrange(a1, a2) == r1
            &&& b.subrange(a2, a3) == r2
            &&& b.subrange(a3, a4) == r3
            &&& b.subrange(a4, a4 + r4.len()) == r4
        }),
{
    let b = head + r1 + r2 + r3 + r4;
    let a1 = head.len() as int;
    let a2 = a1 + r1.len();
    let a3 = a2 + r2.len();
    let a4 = a3 + r3.len();
    assert(b.subrange(0, a1) =~= head);
    assert(b.subrange(a1, a2) =~= r1);
    assert(b.subrange(a2, a3) =~= r2);
    assert(b.subrange(a3, a4) =~= r3);
    assert(b.subrange(a4, a4 + r4.len()) =~= r4);
}

#[verifier::spinoff_prover]
proof fn found_in(b: Seq<u8>, instance: Seq<char>, host: Seq<char>, port: u16, ttl: u32)
    requires
        is_domain(encode_utf8(instance)),
        is_domain(encode_utf8(host)),
        ({
            let i = encode_utf8(instance);
            let h = encode_utf8(host);
            let r1 = record_bytes(encode_utf8(service()), 12, ttl, name_bytes(i));
            let r2 = record_bytes(i, 33, ttl, service_data(port, h));
            let r3 = record_bytes(h, 1, ttl, seq![127u8, 0, 0, 1]);
            let r4 = record_bytes(i, 16, ttl, seq![5u8, 86, 83, 77, 61, 49]);
            let a2 = 12int + r1.len();
            let a3 = a2 + r2.len();
            let a4 = a3 + r3.len();
            &&& b.len() == a4 + r4.len()
            &&& b.subrange(12, a2) == r1
            &&& b.subrange(a2, a3) == r2
            &&& b.subrange(a3, a4) == r3
            &&& b.subrange(a4, a4 + r4.len()) == r4
        }),
    ensures
        records(b, 12, 4) matches Ok(r) && r.1 == announced(instance, port, ttl),
{
    let i = encode_utf8(instance);
    let h = encode_utf8(host);
    let d1 = name_bytes(i);
    let d2 = service_data(port, h);
    let r1 = record_bytes(encode_utf8(service()), 12, ttl, d1);
    let r2 = record_bytes(i, 33, ttl, d2);
    let r3 = record_bytes(h, 1, ttl, seq![127u8, 0, 0, 1]);
    let a2 = 12int + r1.len();
    let a3 = a2 + r2.len();
    let a4 = a3 + r3.len();
    service_is_a_domain();
    name_is_short(i);
    name_is_short(h);
    assert(word(d2, 4) == Ok::<_, DnsError>(port));
    let none = Seq::<(u16, u32)>::empty();
    record_comes_back(b, 12, 0, 12, none, service(), 12, ttl, d1);
    record_comes_back(b, 12, 1, a2, none, instance, 33, ttl, d2);
    let found = announced(instance, port, ttl);
    assert(none.push((port, ttl)) =~= seq![(port, ttl)]);
    record_comes_back(b, 12, 2, a3, found, host, 1, ttl, seq![127u8, 0, 0, 1]);
    record_comes_back(
        b,
        12,
        3,
        a4,
        found,
        instance,
        16,
        ttl,
        seq![5u8, 86, 83, 77, 61, 49],
    );
}

proof fn record_len(owner: Seq<u8>, kind: u16, ttl: u32, data: Seq<u8>)
    ensures
        record_bytes(owner, kind, ttl, data).len() == name_bytes(owner).len() + 10 + data.len(),
{
    reveal(record_bytes);
}

proof fn labels_are_short(u: Seq<u8>, at: int)
    requires
        0 <= at <= u.len(),
    ensures
        labels(u, at).len() == u.len() - at + 1,
    decreases u.len() - at,
{
    dots_lie_ahead(u, at);
    let stop = dot_from(u, at);
    if stop < u.len() {
        labels_are_short(u, stop + 1);
    }
}

proof fn name_is_short(t: Seq<u8>)
    requires
        is_domain(t),
    ensures
        name_bytes(t).len() == t.len() + 1,
{
    last_label(t.drop_last(), 0);
    assert(trimmed(t) == trimmed(t.drop_last()));
    labels_are_short(t.drop_last(), 0);
}

/// The most significant byte of a number comes first where it is read.
pub proof fn numbers_are_read_from_their_highest_byte(b: Seq<u8>, at: int)
    requires
        0 <= at,
    ensures
        word(b, at) is Ok <==> at + 2 <= b.len(),
        word(b, at) matches Ok(n) ==> n == 256 * b[at] + b[at + 1],
        at + 4 <= b.len() ==> long(b, at) == 0x100_0000 * b[at] + 0x1_0000 * b[at + 1] + 0x100
            * b[at + 2] + b[at + 3],
{
}

/// And where it is written.
#[verifier::spinoff_prover]
pub proof fn numbers_are_written_from_their_highest_byte(v: u16, w: u32)
    ensures
        be16(v as int).len() == 2,
        be16(v as int)[0] * 256 + be16(v as int)[1] == v,
        be32(w as int).len() == 4,
        be32(w as int)[0] * 0x100_0000 + be32(w as int)[1] * 0x1_0000 + be32(w as int)[2] * 0x100
            + be32(w as int)[3] == w,
{
    let x = w as int;
    let high = x / 65536;
    let low = x % 65536;
    assert(x == high * 65536 + low);
    assert(high == (high / 256) * 256 + high % 256 && high / 256 < 256);
    assert(low == (low / 256) * 256 + low % 256 && low / 256 < 256);
    assert(x / 256 % 256 == low / 256);
    assert(x % 256 == low % 256);
}

/// A name goes on with the label that stands there behind its length, and a dot.
pub proof fn names_are_made_of_labels(
    b: Seq<u8>,
    at: int,
    end: Option<int>,
    text: Seq<u8>,
    steps: nat,
)
    requires
        0 <= at < b.len(),
        named(b, at, end, text, steps) is Ok,
        0 < b[at] < 0xc0,
    ensures
        b[at] <= 63,
        at + 1 + b[at] <= b.len(),
        named(b, at, end, text, steps) == named(
            b,
            at + 1 + b[at],
            end,
            text + b.subrange(at + 1, at + 1 + b[at]) + seq![46u8],
            (steps - 1) as nat,
        ),
{
}

/// A name ends with a zero byte, or where a place before it is named in its stead, with the
/// two bytes of that place; it goes on there.
pub proof fn names_end_with_zero_or_a_place(
    b: Seq<u8>,
    at: int,
    end: Option<int>,
    text: Seq<u8>,
    steps: nat,
)
    requires
        0 <= at < b.len(),
        named(b, at, end, text, steps) is Ok,
    ensures
        b[at] == 0 ==> named(b, at, end, text, steps)->Ok_0.0 == text && (end is None ==> named(
            b,
            at,
            end,
            text,
            steps,
        )->Ok_0.1 == at + 1),
        end matches Some(e) ==> named(b, at, end, text, steps)->Ok_0.1 == e,
        b[at] >= 0xc0 && end is None ==> {
            let place = (b[at] - 0xc0) * 256 + b[at + 1];
            &&& place < at
            &&& named(b, at, end, text, steps)->Ok_0.1 == at + 2
            &&& named(b, place, Some(at + 2), text, (steps - 1) as nat) == named(
                b,
                at,
                end,
                text,
                steps,
            )
        },
    decreases steps,
{
    if b[at] >= 0xc0 {
        let place = word(b, at)->Ok_0 as int % 0x4000;
        assert(place == (b[at] - 0xc0) * 256 + b[at + 1]);
        names_end_with_zero_or_a_place(
            b,
            place,
            Some(
                if end is Some {
                    end->0
                } else {
                    at + 2
                },
            ),
            text,
            (steps - 1) as nat,
        );
    } else if b[at] != 0 {
        let next = at + 1 + b[at];
        names_end_with_zero_or_a_place(
            b,
            next,
            end,
            text + b.subrange(at + 1, next) + seq![46u8],
            (steps - 1) as nat,
        );
    }
}

/// Which questions concern this service: those for the service by its kind of record, for the
/// instance by its place or its description, for the host by its address, and for any of them
/// by all records.
pub proof fn questions_that_concern_us(
    name: Seq<char>,
    kind: u16,
    instance: Seq<char>,
    host: Seq<char>,
)
    ensures
        concerns("_oscjson._tcp.local."@, 12, instance, host),
        concerns("_oscjson._tcp.local."@, 255, instance, host),
        concerns(instance, 16, instance, host),
        concerns(instance, 33, instance, host),
        concerns(instance, 255, instance, host),
        concerns(host, 1, instance, host),
        concerns(host, 255, instance, host),
        concerns(name, kind, instance, host) ==> {
            &&& name == "_oscjson._tcp.local."@ || name == instance || name == host
            &&& kind == 1 || kind == 12 || kind == 16 || kind == 33 || kind == 255
            &&& kind == 12 ==> name == "_oscjson._tcp.local."@
            &&& kind == 16 || kind == 33 ==> name == instance
            &&& kind == 1 ==> name == host
        },
{
}

/// A packet is answered exactly where one of its questions concerns this service, and to the
/// asker alone exactly where one of these has the highest bit of its class set.
pub proof fn packets_are_answered_where_they_ask(
    b: Seq<u8>,
    at: int,
    n: nat,
    instance: Seq<char>,
    host: Seq<char>,
    i: nat,
)
    requires
        questions(b, at, n, instance, host) is Ok,
        i < n,
    ensures
        questions(b, at, i, instance, host) is Ok,
        ({
            let q = name_here(b, questions(b, at, i, instance, host)->Ok_0.0);
            &&& q is Ok
            &&& word(b, q->Ok_0.1) is Ok && word(b, q->Ok_0.1 + 2) is Ok
            &&& concerns(decode_utf8(q->Ok_0.0), word(b, q->Ok_0.1)->Ok_0, instance, host) ==> {
                &&& questions(b, at, n, instance, host)->Ok_0.1
                &&& word(b, q->Ok_0.1 + 2)->Ok_0 >= 0x8000 ==> questions(
                    b,
                    at,
                    n,
                    instance,
                    host,
                )->Ok_0.2
            }
            &&& questions(b, at, i + 1, instance, host)->Ok_0.0 == q->Ok_0.1 + 4
        }),
    decreases n,
{
    if i < n - 1 {
        packets_are_answered_where_they_ask(b, at, (n - 1) as nat, instance, host, i);
    }
}

/// The converse: where there is an answer a question concerns this service, and where it is
/// for the asker alone that question says so.
pub proof fn answers_have_their_question(
    b: Seq<u8>,
    at: int,
    n: nat,
    instance: Seq<char>,
    host: Seq<char>,
)
    requires
        questions(b, at, n, instance, host) is Ok,
    ensures
        questions(b, at, n, instance, host)->Ok_0.2 ==> questions(b, at, n, instance, host)->Ok_0.1,
        questions(b, at, n, instance, host)->Ok_0.1 ==> exists|i: nat|
            i < n && #[trigger] questions(b, at, i, instance, host) is Ok && {
                let q = name_here(b, questions(b, at, i, instance, host)->Ok_0.0)->Ok_0;
                concerns(decode_utf8(q.0), word(b, q.1)->Ok_0, instance, host)
            },
        questions(b, at, n, instance, host)->Ok_0.2 ==> exists|i: nat|
            i < n && #[trigger] questions(b, at, i, instance, host) is Ok && {
                let q = name_here(b, questions(b, at, i, instance, host)->Ok_0.0)->Ok_0;
                concerns(decode_utf8(q.0), word(b, q.1)->Ok_0, instance, host) && word(
                    b,
                    q.1 + 2,
                )->Ok_0 >= 0x8000
            },
    decreases n,
{
    if n > 0 {
        let m = (n - 1) as nat;
        assert(questions(b, at, m, instance, host) is Ok);
        answers_have_their_question(b, at, m, instance, host);
    }
}

/// A record offers a port exactly where it places a client's service and is still good: the
/// port stands behind the priority and the weight, and comes with the record's time to live.
/// Other records change nothing, and the next one begins where this one's data ends.
pub proof fn ports_are_where_records_place_them(b: Seq<u8>, at: int, n: nat)
    requires
        0 <= at,
        records(b, at, n + 1) is Ok,
    ensures
        ({
            let here = records(b, at, n)->Ok_0;
            let next = records(b, at, n + 1)->Ok_0;
            let name = name_here(b, here.0)->Ok_0;
            let ttl = long(b, name.1 + 4);
            let owner = decode_utf8(name.0);
            &&& records(b, at, n) is Ok && name_here(b, here.0) is Ok
            &&& next.0 == name.1 + 10 + word(b, name.1 + 8)->Ok_0
            &&& next.0 <= b.len()
            &&& word(b, name.1)->Ok_0 == 33 && ttl > 0 && word(b, name.1 + 14)->Ok_0 > 0
                && crate::text::begins(owner, "VRChat-Client-"@) && crate::text::ends(
                owner,
                "_oscjson._tcp.local."@,
            ) ==> next.1 == here.1.push((word(b, name.1 + 14)->Ok_0, ttl))
            &&& next.1 != here.1 ==> word(b, name.1)->Ok_0 == 33 && ttl > 0 && crate::text::begins(
                owner,
                "VRChat-Client-"@,
            ) && crate::text::ends(owner, "_oscjson._tcp.local."@)
        }),
{
}

/// What a packet announces stands in its head: the number of its questions, and of its
/// records in three parts. Packets of more than 512 of them are refused, and so are those
/// that are too short or too long.
pub proof fn packets_say_how_much_they_hold(b: Seq<u8>, instance: Seq<char>, host: Seq<char>)
    ensures
        12 <= b.len() <= 65536 ==> counts(b).0 == b[4] * 256 + b[5] && counts(b).1 == b[6] * 256
            + b[7] + b[8] * 256 + b[9] + b[10] * 256 + b[11],
        b.len() < 12 || b.len() > 65536 ==> parsed(b, instance, host) is Err,
        parsed(b, instance, host) is Ok ==> counts(b).0 + counts(b).1 <= 512,
        parsed(b, instance, host) matches Ok(r) ==> (questions(
            b,
            12,
            counts(b).0 as nat,
            instance,
            host,
        ) matches Ok(q) && q.1 == r.1 && q.2 == r.2 && (records(
            b,
            q.0,
            counts(b).1 as nat,
        ) matches Ok(found) && found.1 == r.0)),
{
}

/// A record of this owner, kind and class stands at a place, for this time and with this data.
#[verifier::opaque]
pub open spec fn holds_record(
    b: Seq<u8>,
    at: int,
    owner: Seq<char>,
    kind: u16,
    class: u16,
    ttl: u32,
    data: Seq<u8>,
) -> bool {
    &&& name_here(b, at) matches Ok(name)
    &&& decode_utf8(name.0) == owner
    &&& word(b, name.1) == Ok::<_, DnsError>(kind)
    &&& word(b, name.1 + 2) == Ok::<_, DnsError>(class)
    &&& long(b, name.1 + 4) == ttl
    &&& word(b, name.1 + 8) == Ok::<_, DnsError>(data.len() as u16)
    &&& b.subrange(name.1 + 10, name.1 + 10 + data.len()) == data
}

#[verifier::spinoff_prover]
proof fn record_is_held(b: Seq<u8>, at: int, owner: Seq<char>, kind: u16, ttl: u32, data: Seq<u8>)
    requires
        is_domain(encode_utf8(owner)),
        data.len() < 65536,
        0 <= at,
        at + record_bytes(encode_utf8(owner), kind, ttl, data).len() <= b.len(),
        b.subrange(at, at + record_bytes(encode_utf8(owner), kind, ttl, data).len())
            == record_bytes(encode_utf8(owner), kind, ttl, data),
    ensures
        holds_record(
            b,
            at,
            owner,
            kind,
            if kind == 12 {
                1u16
            } else {
                0x8001u16
            },
            ttl,
            data,
        ),
{
    parts_of_record(b, at, owner, kind, ttl, data);
    reveal(record_bytes);
    reveal(holds_record);
    let t = encode_utf8(owner);
    let m = name_bytes(t).len() as int;
    let all = record_bytes(t, kind, ttl, data);
    let part = b.subrange(at, at + all.len());
    assert(part == all);
    assert(part[m + 2] == all[m + 2] && part[m + 3] == all[m + 3]);
    let end = at + m;
    assert(b.subrange(end + 10, end + 10 + data.len()) =~= data) by {
        assert forall|i: int| 0 <= i < data.len() implies b[end + 10 + i] == data[i] by {
            assert(part[m + 10 + i] == all[m + 10 + i]);
        }
    }
}

/// Where the parts of an announcement stand.
#[verifier::spinoff_prover]
proof fn parts_of_announcement(i: Seq<u8>, h: Seq<u8>, port: u16, ttl: u32, id: u16)
    requires
        is_domain(i),
        is_domain(h),
    ensures
        ({
            let b = announcement_bytes(i, h, port, ttl, id);
            let r1 = record_bytes(encode_utf8(service()), 12, ttl, name_bytes(i));
            let r2 = record_bytes(i, 33, ttl, service_data(port, h));
            let r3 = record_bytes(h, 1, ttl, seq![127u8, 0, 0, 1]);
            let r4 = record_bytes(i, 16, ttl, seq![5u8, 86, 83, 77, 61, 49]);
            let a2 = 12int + r1.len();
            let a3 = a2 + r2.len();
            let a4 = a3 + r3.len();
            &&& b.len() == a4 + r4.len()
            &&& b.subrange(0, 12) == be16(id as int) + be16(0x8400) + be16(0) + be16(1) + be16(0)
                + be16(3)
            &&& b.subrange(12, a2) == r1
            &&& b.subrange(a2, a3) == r2
            &&& b.subrange(a3, a4) == r3
            &&& b.subrange(a4, a4 + r4.len()) == r4
        }),
{
    let b = announcement_bytes(i, h, port, ttl, id);
    let head = be16(id as int) + be16(0x8400) + be16(0) + be16(1) + be16(0) + be16(3);
    let r1 = record_bytes(encode_utf8(service()), 12, ttl, name_bytes(i));
    let r2 = record_bytes(i, 33, ttl, service_data(port, h));
    let r3 = record_bytes(h, 1, ttl, seq![127u8, 0, 0, 1]);
    let r4 = record_bytes(i, 16, ttl, seq![5u8, 86, 83, 77, 61, 49]);
    assert(b == head + r1 + r2 + r3 + r4);
    pieces(head, r1, r2, r3, r4);
}

/// An announcement is a reply with four records: one that answers and three that add to it.
pub proof fn announcements_are_replies(
    instance: Seq<char>,
    host: Seq<char>,
    port: u16,
    ttl: u32,
    id: u16,
)
    requires
        is_domain(encode_utf8(instance)),
        is_domain(encode_utf8(host)),
    ensures
        ({
            let b = announcement_bytes(encode_utf8(instance), encode_utf8(host), port, ttl, id);
            &&& word(b, 0) == Ok::<_, DnsError>(id)
            &&& word(b, 2) == Ok::<_, DnsError>(0x8400u16)
            &&& word(b, 4) == Ok::<_, DnsError>(0u16)
            &&& word(b, 6) == Ok::<_, DnsError>(1u16)
            &&& word(b, 8) == Ok::<_, DnsError>(0u16)
            &&& word(b, 10) == Ok::<_, DnsError>(3u16)
        }),
{
    let b = announcement_bytes(encode_utf8(instance), encode_utf8(host), port, ttl, id);
    parts_of_announcement(encode_utf8(instance), encode_utf8(host), port, ttl, id);
    head_of_announcement(b, id);
}

/// The records of an announcement: the service names the instance; the instance is placed at
/// the host and the port; the host is this machine; and the instance's description is one
/// mark. All but the first replace what was known of their owners.
#[verifier::spinoff_prover]
#[verifier::rlimit(40)]
pub proof fn announcements_hold_four_records(
    instance: Seq<char>,
    host: Seq<char>,
    port: u16,
    ttl: u32,
    id: u16,
)
    requires
        is_domain(encode_utf8(instance)),
        is_domain(encode_utf8(host)),
    ensures
        ({
            let b = announcement_bytes(encode_utf8(instance), encode_utf8(host), port, ttl, id);
            let place = seq![0u8, 0, 0, 0, (port / 256) as u8, (port % 256) as u8] + name_bytes(
                encode_utf8(host),
            );
            let address = seq![127u8, 0, 0, 1];
            let mark = seq![5u8, 86, 83, 77, 61, 49];
            let name = name_bytes(encode_utf8(instance));
            &&& holds_record(b, 12, "_oscjson._tcp.local."@, 12, 1, ttl, name)
            &&& exists|at: int| #[trigger] holds_record(b, at, instance, 33, 0x8001, ttl, place)
            &&& exists|at: int| #[trigger] holds_record(b, at, host, 1, 0x8001, ttl, address)
            &&& exists|at: int| #[trigger] holds_record(b, at, instance, 16, 0x8001, ttl, mark)
        }),
{
    let i = encode_utf8(instance);
    let h = encode_utf8(host);
    let b = announcement_bytes(i, h, port, ttl, id);
    let d2 = service_data(port, h);
    let d3 = seq![127u8, 0, 0, 1];
    let d4 = seq![5u8, 86, 83, 77, 61, 49];
    let r1 = record_bytes(encode_utf8(service()), 12, ttl, name_bytes(i));
    let r2 = record_bytes(i, 33, ttl, d2);
    let r3 = record_bytes(h, 1, ttl, d3);
    service_is_a_domain();
    name_is_short(i);
    name_is_short(h);
    parts_of_announcement(i, h, port, ttl, id);
    let a2 = 12int + r1.len();
    let a3 = a2 + r2.len();
    let a4 = a3 + r3.len();
    let place = seq![0u8, 0, 0, 0, (port / 256) as u8, (port % 256) as u8] + name_bytes(h);
    assert(d2 =~= place);
    assert(holds_record(b, 12, service(), 12, 1, ttl, name_bytes(i))) by {
        record_is_held(b, 12, service(), 12, ttl, name_bytes(i));
    }
    assert(holds_record(b, a2, instance, 33, 0x8001, ttl, d2)) by {
        record_is_held(b, a2, instance, 33, ttl, d2);
    }
    assert(holds_record(b, a3, host, 1, 0x8001, ttl, d3)) by {
        record_is_held(b, a3, host, 1, ttl, d3);
    }
    assert(holds_record(b, a4, instance, 16, 0x8001, ttl, d4)) by {
        record_is_held(b, a4, instance, 16, ttl, d4);
    }
}

/// The question for services is one question and nothing else: for the service, by its kind
/// of record, without a wish for an answer to the asker alone.
#[verifier::spinoff_prover]
pub proof fn the_question_asks_for_services(instance: Seq<char>, host: Seq<char>)
    ensures
        ({
            let b = question_bytes();
            &&& counts(b) == (1int, 0int)
            &&& name_here(b, 12) matches Ok(name)
            &&& decode_utf8(name.0) == "_oscjson._tcp.local."@
            &&& word(b, name.1) == Ok::<_, DnsError>(12u16)
            &&& word(b, name.1 + 2) == Ok::<_, DnsError>(1u16)
            &&& b.len() == name.1 + 4
            &&& parsed(b, instance, host) == Ok::<_, DnsError>(
                (Seq::<(u16, u32)>::empty(), true, false),
            )
        }),
{
    let b = question_bytes();
    service_is_a_domain();
    let t = encode_utf8(service());
    name_is_short(t);
    assert(b.subrange(12, 12int + name_bytes(t).len()) =~= name_bytes(t));
    name_comes_back(b, 12, service());
    let end = 12 + name_bytes(t).len() as int;
    assert(b[end] == 0 && b[end + 1] == 12 && b[end + 2] == 0 && b[end + 3] == 1);
    assert(questions(b, 12, 0, instance, host) == Ok::<_, DnsError>((12int, false, false)));
    assert(questions(b, 12, 1, instance, host) == Ok::<_, DnsError>((end + 4, true, false)));
    assert(records(b, end + 4, 0) == Ok::<_, DnsError>((end + 4, Seq::<(u16, u32)>::empty())));
}

/// An answer to the asker alone has the number of the question; one to all has none.
pub proof fn answers_to_all_have_no_number(unicast: bool, id: u16)
    ensures
        answered_as(true, id).0 == id,
        answered_as(false, id).0 == 0,
        answered_as(unicast, id).1 == unicast,
{
}

} // verus!
