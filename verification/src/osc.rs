//! Open Sound Control packets.
use crate::bits;
use crate::bits::{finite32, from_integer, widen};
use crate::json::{Json, Number, Tree};
use crate::text::{chars_of, same, utf8, TextMap};
use vstd::prelude::*;
use vstd::slice::slice_subrange;
use vstd::utf8::*;

verus! {

broadcast use vstd::string::group_string_axioms;

/// One message of a packet. Numbers are held as the doubles that equal them.
#[derive(Debug)]
pub struct Message {
    pub address: String,
    pub typetag: String,
    pub values: Vec<Json>,
}

/// A message by its contents.
#[verifier::ext_equal]
pub ghost struct Signal {
    pub address: Seq<char>,
    pub typetag: Seq<char>,
    pub values: Seq<Tree>,
}

impl View for Message {
    type V = Signal;

    open spec fn view(&self) -> Signal {
        Signal { address: self.address@, typetag: self.typetag@, values: trees(self.values@) }
    }
}

/// Documents by their contents.
pub open spec fn trees(values: Seq<Json>) -> Seq<Tree> {
    Seq::new(values.len(), |i: int| values[i]@)
}

/// Messages by their contents.
pub open spec fn signals(messages: Seq<Message>) -> Seq<Signal> {
    Seq::new(messages.len(), |i: int| messages[i]@)
}

/// Why bytes are no packet.
#[derive(Clone, Copy, PartialEq, Eq, Structural, Debug)]
pub enum OscError {
    /// The packet is empty, too long, nested too deep or holds too many messages.
    Bounds,
    /// No zero byte ends a string.
    Unterminated,
    /// A string is not UTF-8.
    Utf8,
    /// The packet ends inside the padding of a string.
    ShortPadding,
    /// The padding of a string holds other bytes than zero.
    Padding,
    /// The packet ends inside a number.
    ShortWord,
    /// A bundle ends inside its head.
    ShortBundle,
    /// An element of a bundle is empty or longer than what is left.
    Length,
    /// An address does not begin with a slash.
    Address,
    /// A type tag does not begin with a comma.
    Typetag,
    /// A float is infinite or no number.
    Nonfinite,
    /// A type tag names a type that is not read.
    Unsupported,
    /// Bytes follow the last value.
    Trailing,
}

/// Where the first zero byte at or after `at` stands, or the end.
pub open spec fn zero_from(bytes: Seq<u8>, at: int) -> int
    decreases bytes.len() - at,
{
    if at >= bytes.len() || bytes[at] == 0 {
        at
    } else {
        zero_from(bytes, at + 1)
    }
}

/// The string at `at` and where its padding ends: the next multiple of four after
/// the first zero byte.
pub open spec fn string_at(bytes: Seq<u8>, at: int) -> Result<(Seq<char>, int), OscError> {
    let stop = zero_from(bytes, at);
    let end = (stop + 4) / 4 * 4;
    if stop >= bytes.len() {
        Err(OscError::Unterminated)
    } else if !valid_utf8(bytes.subrange(at, stop)) {
        Err(OscError::Utf8)
    } else if end > bytes.len() {
        Err(OscError::ShortPadding)
    } else if exists|i: int| stop <= i < end && bytes[i] != 0 {
        Err(OscError::Padding)
    } else {
        Ok((decode_utf8(bytes.subrange(at, stop)), end))
    }
}

/// The four bytes at `at`, the most significant first.
pub open spec fn word_at(bytes: Seq<u8>, at: int) -> Result<u32, OscError> {
    if at + 4 > bytes.len() {
        Err(OscError::ShortWord)
    } else {
        Ok(
            (bytes[at] * 0x100_0000 + bytes[at + 1] * 0x1_0000 + bytes[at + 2] * 0x100 + bytes[at
                + 3]) as u32,
        )
    }
}

/// The signed integer with the same bits.
pub open spec fn signed(word: u32) -> int {
    if word < 0x8000_0000 {
        word as int
    } else {
        word - 0x1_0000_0000
    }
}

/// The number that an integer is read as.
pub open spec fn integer(i: int) -> Number {
    Number {
        signed: Some(i as i64),
        unsigned: if i < 0 {
            None
        } else {
            Some(i as u64)
        },
        bits: bits::integer_bits(i),
    }
}

/// The number that a finite single is read as.
pub open spec fn float(word: u32) -> Number {
    Number { signed: None, unsigned: None, bits: bits::widened(word) }
}

/// The value that a type tag stands for at `at`, and where it ends.
pub open spec fn value_at(tag: char, bytes: Seq<u8>, at: int) -> Result<(Tree, int), OscError> {
    if tag == 'f' {
        match word_at(bytes, at) {
            Err(e) => Err(e),
            Ok(word) => if bits::is_finite32(word) {
                Ok((Tree::Number(float(word)), at + 4))
            } else {
                Err(OscError::Nonfinite)
            },
        }
    } else if tag == 'i' {
        match word_at(bytes, at) {
            Err(e) => Err(e),
            Ok(word) => Ok((Tree::Number(integer(signed(word))), at + 4)),
        }
    } else if tag == 's' {
        match string_at(bytes, at) {
            Err(e) => Err(e),
            Ok((text, end)) => Ok((Tree::Text(text), end)),
        }
    } else if tag == 'T' {
        Ok((Tree::Bool(true), at))
    } else if tag == 'F' {
        Ok((Tree::Bool(false), at))
    } else {
        Err(OscError::Unsupported)
    }
}

/// The values of the first `n` type tags after the comma, and where they end.
pub open spec fn values_at(tags: Seq<char>, n: nat, bytes: Seq<u8>, at: int) -> Result<
    (Seq<Tree>, int),
    OscError,
>
    decreases n,
{
    if n == 0 {
        Ok((Seq::empty(), at))
    } else {
        match values_at(tags, (n - 1) as nat, bytes, at) {
            Err(e) => Err(e),
            Ok((values, end)) => match value_at(tags[n as int], bytes, end) {
                Err(e) => Err(e),
                Ok((value, next)) => Ok((values.push(value), next)),
            },
        }
    }
}

/// The message whose address has been read up to `at`.
pub open spec fn message_at(address: Seq<char>, bytes: Seq<u8>, at: int) -> Result<
    Signal,
    OscError,
> {
    if address.len() == 0 || address[0] != '/' {
        Err(OscError::Address)
    } else {
        match string_at(bytes, at) {
            Err(e) => Err(e),
            Ok((typetag, first)) => if typetag.len() == 0 || typetag[0] != ',' {
                Err(OscError::Typetag)
            } else {
                match values_at(typetag, (typetag.len() - 1) as nat, bytes, first) {
                    Err(e) => Err(e),
                    Ok((values, end)) => if end == bytes.len() {
                        Ok(Signal { address, typetag, values })
                    } else {
                        Err(OscError::Trailing)
                    },
                }
            },
        }
    }
}

/// The messages known after a packet at a depth, with those known before it.
pub open spec fn packet(bytes: Seq<u8>, known: Seq<Signal>, depth: int) -> Result<
    Seq<Signal>,
    OscError,
>
    decreases bytes.len(), bytes.len() + 1,
{
    if depth > 8 || bytes.len() == 0 || bytes.len() > 65536 || known.len() >= 4096 {
        Err(OscError::Bounds)
    } else {
        match string_at(bytes, 0) {
            Err(e) => Err(e),
            Ok((address, at)) => if address == "#bundle"@ {
                if bytes.len() < 16 {
                    Err(OscError::ShortBundle)
                } else {
                    elements(bytes, 16, known, depth)
                }
            } else {
                match message_at(address, bytes, at) {
                    Err(e) => Err(e),
                    Ok(message) => Ok(known.push(message)),
                }
            },
        }
    }
}

/// The messages known after the elements of a bundle from `at` on.
pub open spec fn elements(bytes: Seq<u8>, at: int, known: Seq<Signal>, depth: int) -> Result<
    Seq<Signal>,
    OscError,
>
    decreases bytes.len(), bytes.len() - at,
{
    if at >= bytes.len() || at < 0 {
        Ok(known)
    } else {
        match word_at(bytes, at) {
            Err(e) => Err(e),
            Ok(n) => if n == 0 || n > bytes.len() - at - 4 {
                Err(OscError::Length)
            } else {
                match packet(bytes.subrange(at + 4, at + 4 + n), known, depth + 1) {
                    Err(e) => Err(e),
                    Ok(more) => elements(bytes, at + 4 + n, more, depth),
                }
            },
        }
    }
}

fn string(bytes: &[u8], at: &mut usize) -> (res: Result<String, OscError>)
    requires
        *old(at) <= bytes.len() <= 65536,
    ensures
        res matches Err(e) ==> string_at(bytes@, *old(at) as int) == Err::<(Seq<char>, int), _>(e),
        res matches Ok(text) ==> string_at(bytes@, *old(at) as int) == Ok::<_, OscError>(
            (text@, *final(at) as int),
        ) && *final(at) <= bytes.len(),
{
    let first: usize = *at;
    let mut stop: usize = first;
    while stop < bytes.len() && bytes[stop] != 0
        invariant
            first <= stop <= bytes.len(),
            zero_from(bytes@, first as int) == zero_from(bytes@, stop as int),
        decreases bytes.len() - stop,
    {
        stop += 1;
    }
    if stop >= bytes.len() {
        return Err(OscError::Unterminated);
    }
    let text = match utf8(slice_subrange(bytes, first, stop)) {
        Some(text) => text,
        None => {
            return Err(OscError::Utf8);
        },
    };
    let end: usize = (stop + 4) / 4 * 4;
    if end > bytes.len() {
        return Err(OscError::ShortPadding);
    }
    let mut i: usize = stop;
    while i < end
        invariant
            first <= stop <= i <= end <= bytes.len(),
            stop < bytes.len(),
            stop == zero_from(bytes@, first as int),
            end == (stop + 4) / 4 * 4,
            valid_utf8(bytes@.subrange(first as int, stop as int)),
            *old(at) == first,
            forall|k: int| stop <= k < i ==> bytes@[k] == 0,
        decreases end - i,
    {
        if bytes[i] != 0 {
            return Err(OscError::Padding);
        }
        i += 1;
    }
    *at = end;
    Ok(text)
}

fn word(bytes: &[u8], at: &mut usize) -> (res: Result<u32, OscError>)
    requires
        *old(at) <= bytes.len() <= 65536,
    ensures
        res == word_at(bytes@, *old(at) as int),
        res is Ok ==> *final(at) == *old(at) + 4 && *final(at) <= bytes.len(),
{
    let i: usize = *at;
    if bytes.len() - i < 4 {
        return Err(OscError::ShortWord);
    }
    *at = i + 4;
    Ok(
        bytes[i] as u32 * 0x100_0000 + bytes[i + 1] as u32 * 0x1_0000 + bytes[i + 2] as u32 * 0x100
            + bytes[i + 3] as u32,
    )
}

fn value(tag: char, bytes: &[u8], at: &mut usize) -> (res: Result<Json, OscError>)
    requires
        *old(at) <= bytes.len() <= 65536,
    ensures
        res matches Err(e) ==> value_at(tag, bytes@, *old(at) as int) == Err::<(Tree, int), _>(e),
        res matches Ok(json) ==> value_at(tag, bytes@, *old(at) as int) == Ok::<_, OscError>(
            (json@, *final(at) as int),
        ) && *final(at) <= bytes.len(),
{
    if tag == 'f' {
        match word(bytes, at) {
            Err(e) => Err(e),
            Ok(bits) => if finite32(bits) {
                Ok(Json::Number(Number { signed: None, unsigned: None, bits: widen(bits) }))
            } else {
                Err(OscError::Nonfinite)
            },
        }
    } else if tag == 'i' {
        match word(bytes, at) {
            Err(e) => Err(e),
            Ok(bits) => {
                let i: i64 = if bits < 0x8000_0000 {
                    bits as i64
                } else {
                    bits as i64 - 0x1_0000_0000
                };
                Ok(
                    Json::Number(
                        Number {
                            signed: Some(i),
                            unsigned: if i < 0 {
                                None
                            } else {
                                Some(i as u64)
                            },
                            bits: from_integer(i as i32),
                        },
                    ),
                )
            },
        }
    } else if tag == 's' {
        match string(bytes, at) {
            Err(e) => Err(e),
            Ok(text) => Ok(Json::Text(text)),
        }
    } else if tag == 'T' {
        Ok(Json::Bool(true))
    } else if tag == 'F' {
        Ok(Json::Bool(false))
    } else {
        Err(OscError::Unsupported)
    }
}

proof fn failure_stays(tags: Seq<char>, n: nat, m: nat, bytes: Seq<u8>, at: int)
    requires
        n <= m,
        values_at(tags, n, bytes, at) is Err,
    ensures
        values_at(tags, m, bytes, at) == values_at(tags, n, bytes, at),
    decreases m,
{
    if n < m {
        failure_stays(tags, n, (m - 1) as nat, bytes, at);
    }
}

/// Reads the values of the type tags behind the comma.
fn values(tags: &Vec<char>, bytes: &[u8], at: &mut usize) -> (res: Result<Vec<Json>, OscError>)
    requires
        tags.len() > 0,
        *old(at) <= bytes.len() <= 65536,
    ensures
        res matches Err(e) ==> values_at(
            tags@,
            (tags.len() - 1) as nat,
            bytes@,
            *old(at) as int,
        ) == Err::<(Seq<Tree>, int), _>(e),
        res matches Ok(list) ==> values_at(
            tags@,
            (tags.len() - 1) as nat,
            bytes@,
            *old(at) as int,
        ) == Ok::<_, OscError>((trees(list@), *final(at) as int)) && *final(at) <= bytes.len(),
{
    let ghost first = *at as int;
    let mut list: Vec<Json> = Vec::new();
    let mut i: usize = 1;
    assert(trees(list@) =~= Seq::<Tree>::empty());
    while i < tags.len()
        invariant
            1 <= i <= tags.len(),
            *at <= bytes.len() <= 65536,
            first == *old(at),
            values_at(tags@, (i - 1) as nat, bytes@, first) == Ok::<_, OscError>(
                (trees(list@), *at as int),
            ),
        decreases tags.len() - i,
    {
        let ghost had = list@;
        match value(tags[i], bytes, at) {
            Ok(json) => {
                list.push(json);
                assert(trees(list@) =~= trees(had).push(json@));
            },
            Err(e) => {
                proof {
                    failure_stays(tags@, i as nat, (tags.len() - 1) as nat, bytes@, first);
                }
                return Err(e);
            },
        }
        i += 1;
    }
    Ok(list)
}

/// Reads the message whose address has been read up to `at`.
fn message(address: String, bytes: &[u8], at: usize) -> (res: Result<Message, OscError>)
    requires
        at <= bytes.len() <= 65536,
    ensures
        res matches Err(e) ==> message_at(address@, bytes@, at as int) == Err::<Signal, _>(e),
        res matches Ok(m) ==> message_at(address@, bytes@, at as int) == Ok::<_, OscError>(m@),
{
    let mut at: usize = at;
    let letters = chars_of(&address);
    if letters.len() == 0 || letters[0] != '/' {
        return Err(OscError::Address);
    }
    let typetag = match string(bytes, &mut at) {
        Ok(text) => text,
        Err(e) => {
            return Err(e);
        },
    };
    let tags = chars_of(&typetag);
    if tags.len() == 0 || tags[0] != ',' {
        return Err(OscError::Typetag);
    }
    let list = match values(&tags, bytes, &mut at) {
        Ok(list) => list,
        Err(e) => {
            return Err(e);
        },
    };
    if at != bytes.len() {
        return Err(OscError::Trailing);
    }
    Ok(Message { address, typetag, values: list })
}

/// Reads a packet into `result`, behind the messages that it holds. Those stay, even where
/// the packet is refused; where it breaks a bound nothing is added.
fn decode(bytes: &[u8], result: &mut Vec<Message>, depth: usize) -> (res: Result<(), OscError>)
    requires
        depth <= 9,
    ensures
        res matches Err(e) ==> packet(bytes@, signals(old(result)@), depth as int) == Err::<
            Seq<Signal>,
            _,
        >(e),
        res is Ok ==> packet(bytes@, signals(old(result)@), depth as int) == Ok::<_, OscError>(
            signals(final(result)@),
        ),
        old(result)@.is_prefix_of(final(result)@),
        depth > 8 || bytes.len() == 0 || bytes.len() > 65536 || old(result).len() >= 4096 ==> res
            == Err::<(), _>(OscError::Bounds) && final(result)@ == old(result)@,
    decreases bytes.len(),
{
    if depth > 8 || bytes.len() == 0 || bytes.len() > 65536 || result.len() >= 4096 {
        return Err(OscError::Bounds);
    }
    let ghost known = signals(result@);
    let mut at: usize = 0;
    let address = match string(bytes, &mut at) {
        Ok(text) => text,
        Err(e) => {
            return Err(e);
        },
    };
    if same(&address, "#bundle") {
        if bytes.len() < 16 {
            return Err(OscError::ShortBundle);
        }
        at = 16;
        while at < bytes.len()
            invariant
                16 <= at <= bytes.len() <= 65536,
                depth <= 8,
                packet(bytes@, known, depth as int) == elements(
                    bytes@,
                    at as int,
                    signals(result@),
                    depth as int,
                ),
                known == signals(old(result)@),
                old(result)@.is_prefix_of(result@),
                old(result).len() < 4096,
            decreases bytes.len() - at,
        {
            let ghost here = at as int;
            let n: usize = match word(bytes, &mut at) {
                Ok(n) => n as usize,
                Err(e) => {
                    return Err(e);
                },
            };
            if n == 0 || n > bytes.len() - at {
                return Err(OscError::Length);
            }
            match decode(slice_subrange(bytes, at, at + n), result, depth + 1) {
                Ok(_) => {},
                Err(e) => {
                    return Err(e);
                },
            }
            at = at + n;
        }
        return Ok(());
    }
    match message(address, bytes, at) {
        Ok(message) => {
            let ghost had = result@;
            result.push(message);
            assert(signals(result@) =~= signals(had).push(message@));
            Ok(())
        },
        Err(e) => Err(e),
    }
}

/// Reads a packet: one message, or a bundle of packets. Either all of its messages
/// are read or none.
pub fn decode_osc(bytes: &[u8]) -> (res: Result<Vec<Message>, OscError>)
    ensures
        res matches Ok(messages) ==> packet(bytes@, Seq::empty(), 0) == Ok::<_, OscError>(
            signals(messages@),
        ),
        res matches Err(e) ==> packet(bytes@, Seq::empty(), 0) == Err::<Seq<Signal>, _>(e),
{
    let mut result: Vec<Message> = Vec::new();
    assert(signals(result@) =~= Seq::empty());
    match decode(bytes, &mut result, 0) {
        Ok(_) => Ok(result),
        Err(e) => Err(e),
    }
}

/// A value is of the kind that its type tag names.
pub open spec fn fits(tag: char, value: Tree) -> bool {
    match value {
        Tree::Number(n) => {
            ||| tag == 'f' && n.signed is None && bits::is_finite(n.bits)
            ||| tag == 'i' && n.signed is Some && i32::MIN <= n.signed->0 <= i32::MAX
                && bits::is_finite(n.bits)
        },
        Tree::Text(_) => tag == 's',
        Tree::Bool(b) => tag == (if b {
            'T'
        } else {
            'F'
        }),
        _ => false,
    }
}

/// A message has an address and one value of the right kind for each type tag.
pub open spec fn well_formed(m: Signal) -> bool {
    &&& m.address.len() > 0 && m.address[0] == '/'
    &&& m.typetag.len() > 0 && m.typetag[0] == ','
    &&& m.values.len() == m.typetag.len() - 1
    &&& forall|i: int| 0 <= i < m.values.len() ==> fits(m.typetag[i + 1], #[trigger] m.values[i])
}

/// Every number of a message is finite.
pub open spec fn is_measured(m: Signal) -> bool {
    forall|i: int|
        0 <= i < m.values.len() && (#[trigger] m.values[i]).bits() is Some ==> bits::is_finite(
            m.values[i].bits()->0,
        )
}

/// The numbers of a well-formed message are finite.
pub proof fn well_formed_messages_are_measured(m: Signal)
    requires
        well_formed(m),
    ensures
        is_measured(m),
{
    assert forall|i: int|
        0 <= i < m.values.len() && (#[trigger] m.values[i]).bits() is Some implies bits::is_finite(
        m.values[i].bits()->0,
    ) by {
        assert(fits(m.typetag[i + 1], m.values[i]));
    }
}

proof fn values_fit(tags: Seq<char>, n: nat, bytes: Seq<u8>, at: int)
    requires
        n < tags.len(),
        values_at(tags, n, bytes, at) is Ok,
    ensures
        values_at(tags, n, bytes, at)->Ok_0.0.len() == n,
        forall|i: int|
            0 <= i < n ==> fits(
                tags[i + 1],
                #[trigger] values_at(tags, n, bytes, at)->Ok_0.0[i],
            ),
    decreases n,
{
    if n > 0 {
        values_fit(tags, (n - 1) as nat, bytes, at);
        let (values, end) = values_at(tags, (n - 1) as nat, bytes, at)->Ok_0;
        if tags[n as int] == 'f' {
            bits::widening_keeps_the_value(word_at(bytes, end)->Ok_0);
        }
        if tags[n as int] == 'i' {
            bits::integers_are_finite(signed(word_at(bytes, end)->Ok_0));
        }
    }
}

proof fn messages_of_packet(bytes: Seq<u8>, known: Seq<Signal>, depth: int)
    requires
        known.len() <= 4096,
        forall|i: int| 0 <= i < known.len() ==> well_formed(#[trigger] known[i]),
        packet(bytes, known, depth) is Ok,
    ensures
        packet(bytes, known, depth)->Ok_0.len() <= 4096,
        forall|i: int|
            0 <= i < packet(bytes, known, depth)->Ok_0.len() ==> well_formed(
                #[trigger] packet(bytes, known, depth)->Ok_0[i],
            ),
    decreases bytes.len(), bytes.len() + 1,
{
    let (address, at) = string_at(bytes, 0)->Ok_0;
    if address == "#bundle"@ {
        messages_of_elements(bytes, 16, known, depth);
    } else {
        let (typetag, first) = string_at(bytes, at)->Ok_0;
        values_fit(typetag, (typetag.len() - 1) as nat, bytes, first);
    }
}

proof fn messages_of_elements(bytes: Seq<u8>, at: int, known: Seq<Signal>, depth: int)
    requires
        known.len() <= 4096,
        forall|i: int| 0 <= i < known.len() ==> well_formed(#[trigger] known[i]),
        elements(bytes, at, known, depth) is Ok,
    ensures
        elements(bytes, at, known, depth)->Ok_0.len() <= 4096,
        forall|i: int|
            0 <= i < elements(bytes, at, known, depth)->Ok_0.len() ==> well_formed(
                #[trigger] elements(bytes, at, known, depth)->Ok_0[i],
            ),
    decreases bytes.len(), bytes.len() - at,
{
    if 0 <= at < bytes.len() {
        let n = word_at(bytes, at)->Ok_0;
        let inner = bytes.subrange(at + 4, at + 4 + n);
        messages_of_packet(inner, known, depth + 1);
        messages_of_elements(bytes, at + 4 + n, packet(inner, known, depth + 1)->Ok_0, depth);
    }
}

/// Whatever packet is read, each of its messages has an address that begins with a
/// slash and one finite, well-typed value for each type tag, and there are at most
/// 4096 of them.
pub proof fn read_messages_are_well_formed(bytes: Seq<u8>)
    requires
        packet(bytes, Seq::empty(), 0) is Ok,
    ensures
        packet(bytes, Seq::empty(), 0)->Ok_0.len() <= 4096,
        forall|i: int|
            0 <= i < packet(bytes, Seq::empty(), 0)->Ok_0.len() ==> well_formed(
                #[trigger] packet(bytes, Seq::empty(), 0)->Ok_0[i],
            ),
{
    messages_of_packet(bytes, Seq::empty(), 0);
}

/// A map by the contents of its strings.
pub open spec fn texts(map: Map<Seq<char>, String>) -> Map<Seq<char>, Seq<char>> {
    Map::new(|key: Seq<char>| map.contains_key(key), |key: Seq<char>| map[key]@)
}

/// Strings by their contents.
pub open spec fn views(names: Seq<&str>) -> Seq<Seq<char>> {
    Seq::new(names.len(), |i: int| names[i]@)
}

/// The map with the first `n` names, each behind the prefix, put at one kind.
pub open spec fn with_names(
    map: Map<Seq<char>, Seq<char>>,
    prefix: Seq<char>,
    names: Seq<Seq<char>>,
    n: nat,
    kind: Seq<char>,
) -> Map<Seq<char>, Seq<char>>
    decreases n,
{
    if n == 0 {
        map
    } else {
        with_names(map, prefix, names, (n - 1) as nat, kind).insert(prefix + names[n - 1], kind)
    }
}

/// A group of addresses of one kind: what they begin with, their names and the
/// type tags of their values.
pub open spec fn families() -> Seq<(Seq<char>, Seq<Seq<char>>, Seq<char>)> {
    seq![
        (
            ""@,
            seq![
                "/usercamera/Pose"@,
                "/tracking/vrsystem/head/pose"@,
                "/tracking/vrsystem/leftwrist/pose"@,
                "/tracking/vrsystem/rightwrist/pose"@,
            ],
            "ffffff"@,
        ),
        (""@, seq!["/avatar/change"@], "s"@),
        (""@, seq!["/usercamera/Mode"@, "/avatar/parameters/VBS/Ref/ProbeVersion"@], "i"@),
        (
            "/avatar/parameters/"@,
            seq![
                "ScaleFactor"@,
                "ScaleFactorInverse"@,
                "EyeHeightAsMeters"@,
                "EyeHeightAsPercent"@,
                "VelocityX"@,
                "VelocityY"@,
                "VelocityZ"@,
                "VelocityMagnitude"@,
                "AngularY"@,
                "Upright"@,
            ],
            "f"@,
        ),
        (
            "/avatar/parameters/"@,
            seq!["ScaleModified"@, "Grounded"@, "InStation"@, "Seated"@, "AFK"@],
            "T"@,
        ),
        ("/avatar/parameters/"@, seq!["VRMode"@, "TrackingType"@], "i"@),
        (
            "/usercamera/"@,
            seq![
                "Lock"@,
                "SmoothMovement"@,
                "LookAtMe"@,
                "AutoLevelRoll"@,
                "AutoLevelPitch"@,
                "Flying"@,
                "Streaming"@,
            ],
            "T"@,
        ),
        (
            "/usercamera/"@,
            seq!["SmoothingStrength"@, "LookAtMeXOffset"@, "LookAtMeYOffset"@],
            "f"@,
        ),
        ("/avatar/parameters/VBS/Ref/head/"@, axes(), "f"@),
        ("/avatar/parameters/VBS/Ref/head/"@, seq!["SaveObject"@], "T"@),
        ("/avatar/parameters/VBS/Ref/mouth/"@, axes(), "f"@),
        ("/avatar/parameters/VBS/Ref/mouth/"@, seq!["SaveObject"@], "T"@),
        ("/avatar/parameters/VBS/Ref/root/"@, axes(), "f"@),
        ("/avatar/parameters/VBS/Ref/root/"@, seq!["SaveObject"@], "T"@),
    ]
}

/// The names of a probe's coordinates.
pub open spec fn axes() -> Seq<Seq<char>> {
    seq![
        "p/x"@,
        "p/x+"@,
        "p/y"@,
        "p/y+"@,
        "p/z"@,
        "p/z+"@,
        "r/x"@,
        "r/x+"@,
        "r/y"@,
        "r/y+"@,
        "r/z"@,
        "r/z+"@,
    ]
}

/// The addresses of the first `n` groups with their type tags.
pub open spec fn tags_of(
    groups: Seq<(Seq<char>, Seq<Seq<char>>, Seq<char>)>,
    n: nat,
) -> Map<Seq<char>, Seq<char>>
    decreases n,
{
    if n == 0 {
        Map::empty()
    } else {
        let group = groups[n - 1];
        with_names(tags_of(groups, (n - 1) as nat), group.0, group.1, group.1.len(), group.2)
    }
}

fn put_all(map: &mut TextMap<String>, prefix: &str, names: &Vec<&str>, kind: &str)
    requires
        old(map).wf(),
    ensures
        final(map).wf(),
        texts(final(map)@) == with_names(
            texts(old(map)@),
            prefix@,
            views(names@),
            names@.len(),
            kind@,
        ),
{
    let ghost start = texts(map@);
    let mut i: usize = 0;
    while i < names.len()
        invariant
            map.wf(),
            i <= names.len(),
            texts(map@) == with_names(start, prefix@, views(names@), i as nat, kind@),
        decreases names.len() - i,
    {
        let ghost was = map@;
        let mut address = prefix.to_owned();
        address.append(names[i]);
        let tag = kind.to_owned();
        map.insert(address, tag);
        i += 1;
        proof {
            assert(address@ == prefix@ + views(names@)[i - 1]);
            assert(texts(map@) =~= texts(was).insert(address@, kind@));
        }
    }
}

/// The addresses that are listened to, each with the type tags of its values.
pub fn live_types() -> (map: TextMap<String>)
    ensures
        map.wf(),
        texts(map@) == tags_of(families(), families().len()),
{
    let ghost groups = families();
    let mut map: TextMap<String> = TextMap::new();
    proof {
        assert(texts(map@) =~= tags_of(groups, 0));
    }
    let names = vec![
        "/usercamera/Pose",
        "/tracking/vrsystem/head/pose",
        "/tracking/vrsystem/leftwrist/pose",
        "/tracking/vrsystem/rightwrist/pose",
    ];
    put_all(&mut map, "", &names, "ffffff");
    assert(views(names@) =~= groups[0].1);
    assert(texts(map@) == tags_of(groups, 1));
    let names = vec!["/avatar/change"];
    put_all(&mut map, "", &names, "s");
    assert(views(names@) =~= groups[1].1);
    assert(texts(map@) == tags_of(groups, 2));
    let names = vec!["/usercamera/Mode", "/avatar/parameters/VBS/Ref/ProbeVersion"];
    put_all(&mut map, "", &names, "i");
    assert(views(names@) =~= groups[2].1);
    assert(texts(map@) == tags_of(groups, 3));
    let names = vec![
        "ScaleFactor",
        "ScaleFactorInverse",
        "EyeHeightAsMeters",
        "EyeHeightAsPercent",
        "VelocityX",
        "VelocityY",
        "VelocityZ",
        "VelocityMagnitude",
        "AngularY",
        "Upright",
    ];
    put_all(&mut map, "/avatar/parameters/", &names, "f");
    assert(views(names@) =~= groups[3].1);
    assert(texts(map@) == tags_of(groups, 4));
    let names = vec!["ScaleModified", "Grounded", "InStation", "Seated", "AFK"];
    put_all(&mut map, "/avatar/parameters/", &names, "T");
    assert(views(names@) =~= groups[4].1);
    assert(texts(map@) == tags_of(groups, 5));
    let names = vec!["VRMode", "TrackingType"];
    put_all(&mut map, "/avatar/parameters/", &names, "i");
    assert(views(names@) =~= groups[5].1);
    assert(texts(map@) == tags_of(groups, 6));
    let names = vec![
        "Lock",
        "SmoothMovement",
        "LookAtMe",
        "AutoLevelRoll",
        "AutoLevelPitch",
        "Flying",
        "Streaming",
    ];
    put_all(&mut map, "/usercamera/", &names, "T");
    assert(views(names@) =~= groups[6].1);
    assert(texts(map@) == tags_of(groups, 7));
    let names = vec!["SmoothingStrength", "LookAtMeXOffset", "LookAtMeYOffset"];
    put_all(&mut map, "/usercamera/", &names, "f");
    assert(views(names@) =~= groups[7].1);
    assert(texts(map@) == tags_of(groups, 8));
    let coordinates = vec![
        "p/x",
        "p/x+",
        "p/y",
        "p/y+",
        "p/z",
        "p/z+",
        "r/x",
        "r/x+",
        "r/y",
        "r/y+",
        "r/z",
        "r/z+",
    ];
    let object = vec!["SaveObject"];
    put_all(&mut map, "/avatar/parameters/VBS/Ref/head/", &coordinates, "f");
    assert(views(coordinates@) =~= groups[8].1);
    assert(texts(map@) == tags_of(groups, 9));
    put_all(&mut map, "/avatar/parameters/VBS/Ref/head/", &object, "T");
    assert(views(object@) =~= groups[9].1);
    assert(texts(map@) == tags_of(groups, 10));
    put_all(&mut map, "/avatar/parameters/VBS/Ref/mouth/", &coordinates, "f");
    assert(views(coordinates@) =~= groups[10].1);
    assert(texts(map@) == tags_of(groups, 11));
    put_all(&mut map, "/avatar/parameters/VBS/Ref/mouth/", &object, "T");
    assert(views(object@) =~= groups[11].1);
    assert(texts(map@) == tags_of(groups, 12));
    put_all(&mut map, "/avatar/parameters/VBS/Ref/root/", &coordinates, "f");
    assert(views(coordinates@) =~= groups[12].1);
    assert(texts(map@) == tags_of(groups, 13));
    put_all(&mut map, "/avatar/parameters/VBS/Ref/root/", &object, "T");
    assert(views(object@) =~= groups[13].1);
    assert(texts(map@) == tags_of(groups, 14));
    map
}

/// The most significant byte of a word comes first.
pub proof fn words_begin_with_their_highest_byte(bytes: Seq<u8>, at: int)
    requires
        0 <= at,
    ensures
        word_at(bytes, at) is Ok <==> at + 4 <= bytes.len(),
        word_at(bytes, at) matches Ok(w) ==> w / 0x100_0000 == bytes[at] && w / 0x1_0000 % 256
            == bytes[at + 1] && w / 0x100 % 256 == bytes[at + 2] && w % 256 == bytes[at + 3],
{
}

/// A string is what stands before the first zero byte; the zeros behind it go on to the next
/// multiple of four, and there is at least one of them.
pub proof fn strings_end_with_zeros(bytes: Seq<u8>, at: int)
    requires
        0 <= at <= bytes.len(),
        string_at(bytes, at) is Ok,
    ensures
        ({
            let (text, end) = string_at(bytes, at)->Ok_0;
            exists|stop: int|
                {
                    &&& at <= stop < end <= bytes.len()
                    &&& end % 4 == 0 && end - stop <= 4
                    &&& text == decode_utf8(#[trigger] bytes.subrange(at, stop))
                    &&& forall|i: int| at <= i < stop ==> bytes[i] != 0
                    &&& forall|i: int| stop <= i < end ==> bytes[i] == 0
                }
        }),
{
    zeros_lie_ahead(bytes, at);
    let stop = zero_from(bytes, at);
    let end = (stop + 4) / 4 * 4;
    assert(string_at(bytes, at)->Ok_0.0 == decode_utf8(bytes.subrange(at, stop)));
    assert forall|i: int| stop <= i < end implies bytes[i] == 0 by {}
}

proof fn zeros_lie_ahead(bytes: Seq<u8>, at: int)
    requires
        0 <= at <= bytes.len(),
    ensures
        at <= zero_from(bytes, at) <= bytes.len(),
        forall|i: int| at <= i < zero_from(bytes, at) ==> bytes[i] != 0,
        zero_from(bytes, at) < bytes.len() ==> bytes[zero_from(bytes, at)] == 0,
    decreases bytes.len() - at,
{
    if at < bytes.len() && bytes[at] != 0 {
        zeros_lie_ahead(bytes, at + 1);
    }
}

/// A value is what its tag says: a float has the value and the sign of the single in its
/// four bytes, an integer is the signed one in its four bytes, a string is text, and truth
/// values take no bytes.
pub proof fn values_are_what_their_tags_say(tag: char, bytes: Seq<u8>, at: int)
    requires
        0 <= at <= bytes.len(),
        value_at(tag, bytes, at) is Ok,
    ensures
        ({
            let (value, end) = value_at(tag, bytes, at)->Ok_0;
            &&& tag == 'f' ==> {
                let w = word_at(bytes, at)->Ok_0;
                &&& end == at + 4
                &&& value matches Tree::Number(n)
                &&& n.signed is None && n.unsigned is None
                &&& w / 0x80_0000 % 256 != 255
                &&& bits::double(n.bits) == bits::single(w) * vstd::arithmetic::power2::pow2(925)
                &&& n.bits >= 0x8000_0000_0000_0000 <==> w >= 0x8000_0000
            }
            &&& tag == 'i' ==> {
                let w = word_at(bytes, at)->Ok_0;
                &&& end == at + 4
                &&& value matches Tree::Number(n)
                &&& n.signed matches Some(i)
                &&& i as int == (if w < 0x8000_0000 {
                    w as int
                } else {
                    w - 0x1_0000_0000
                })
                &&& i >= 0 ==> n.unsigned == Some(i as u64)
                &&& i < 0 ==> n.unsigned is None
            }
            &&& tag == 's' ==> value == Tree::Text(string_at(bytes, at)->Ok_0.0) && end
                == string_at(bytes, at)->Ok_0.1
            &&& tag == 'T' ==> value == Tree::Bool(true) && end == at
            &&& tag == 'F' ==> value == Tree::Bool(false) && end == at
            &&& tag == 'f' || tag == 'i' || tag == 's' || tag == 'T' || tag == 'F'
        }),
{
    if tag == 'f' {
        let w = word_at(bytes, at)->Ok_0;
        bits::widening_keeps_the_value(w);
        bits::patterns_are_singles(w);
    }
}

/// A message has the address and the tags that stand in it, and one value for each tag,
/// which begins where the one before it ended; nothing of the packet is left over.
pub proof fn messages_hold_what_they_say(address: Seq<char>, bytes: Seq<u8>, at: int)
    requires
        message_at(address, bytes, at) is Ok,
    ensures
        ({
            let m = message_at(address, bytes, at)->Ok_0;
            &&& m.address == address
            &&& string_at(bytes, at) matches Ok(tags)
            &&& m.typetag == tags.0
            &&& values_at(m.typetag, (m.typetag.len() - 1) as nat, bytes, tags.1) == Ok::<
                _,
                OscError,
            >((m.values, bytes.len() as int))
        }),
{
}

/// The values of a message follow each other in the order of its tags.
pub proof fn values_follow_their_tags(tags: Seq<char>, n: nat, bytes: Seq<u8>, at: int, i: nat)
    requires
        values_at(tags, n, bytes, at) is Ok,
        i < n,
    ensures
        values_at(tags, i, bytes, at) matches Ok(before) && value_at(
            tags[i as int + 1],
            bytes,
            before.1,
        ) matches Ok(r) && r.0 == values_at(tags, n, bytes, at)->Ok_0.0[i as int],
        values_at(tags, n, bytes, at)->Ok_0.0.len() == n,
    decreases n,
{
    if n > 0 {
        if i < n - 1 {
            values_follow_their_tags(tags, (n - 1) as nat, bytes, at, i);
        } else if n > 1 {
            values_follow_their_tags(tags, (n - 1) as nat, bytes, at, (n - 2) as nat);
        }
    }
}

/// Messages come behind those that were known, and what was known makes no difference to
/// them, as long as there is room.
pub proof fn messages_come_in_order(bytes: Seq<u8>, known: Seq<Signal>, depth: int)
    requires
        packet(bytes, known, depth) is Ok,
    ensures
        packet(bytes, Seq::empty(), depth) is Ok,
        packet(bytes, known, depth)->Ok_0 == known + packet(bytes, Seq::empty(), depth)->Ok_0,
        bytes.len() <= 65536 && known.len() < 4096 && depth <= 8,
{
    assert(known + Seq::<Signal>::empty() =~= known);
    packets_do_not_look_back(bytes, known, Seq::empty(), depth);
}

proof fn packets_do_not_look_back(bytes: Seq<u8>, known: Seq<Signal>, found: Seq<Signal>, depth: int)
    requires
        packet(bytes, known + found, depth) is Ok,
    ensures
        packet(bytes, found, depth) is Ok,
        packet(bytes, known + found, depth)->Ok_0 == known + packet(bytes, found, depth)->Ok_0,
    decreases bytes.len(), bytes.len() + 1,
{
    let (address, at) = string_at(bytes, 0)->Ok_0;
    if address == "#bundle"@ {
        elements_do_not_look_back(bytes, 16, known, found, depth);
    } else {
        let m = message_at(address, bytes, at)->Ok_0;
        assert((known + found).push(m) =~= known + found.push(m));
    }
}

proof fn elements_do_not_look_back(
    bytes: Seq<u8>,
    at: int,
    known: Seq<Signal>,
    found: Seq<Signal>,
    depth: int,
)
    requires
        elements(bytes, at, known + found, depth) is Ok,
    ensures
        elements(bytes, at, found, depth) is Ok,
        elements(bytes, at, known + found, depth)->Ok_0 == known + elements(
            bytes,
            at,
            found,
            depth,
        )->Ok_0,
    decreases bytes.len(), bytes.len() - at,
{
    if 0 <= at < bytes.len() {
        let n = word_at(bytes, at)->Ok_0;
        let inner = bytes.subrange(at + 4, at + 4 + n);
        packets_do_not_look_back(inner, known, found, depth + 1);
        elements_do_not_look_back(
            bytes,
            at + 4 + n,
            known,
            packet(inner, found, depth + 1)->Ok_0,
            depth,
        );
    }
}

/// A packet that is no bundle is one message, whose address stands at its beginning.
pub proof fn packets_are_messages_or_bundles(bytes: Seq<u8>, known: Seq<Signal>, depth: int)
    requires
        packet(bytes, known, depth) is Ok,
        string_at(bytes, 0)->Ok_0.0 != "#bundle"@,
    ensures
        packet(bytes, known, depth)->Ok_0.len() == known.len() + 1,
        packet(bytes, known, depth)->Ok_0.drop_last() == known,
        packet(bytes, known, depth)->Ok_0.last().address == string_at(bytes, 0)->Ok_0.0,
        message_at(
            string_at(bytes, 0)->Ok_0.0,
            bytes,
            string_at(bytes, 0)->Ok_0.1,
        ) == Ok::<_, OscError>(packet(bytes, known, depth)->Ok_0.last()),
{
    let m = message_at(string_at(bytes, 0)->Ok_0.0, bytes, string_at(bytes, 0)->Ok_0.1)->Ok_0;
    assert(known.push(m).drop_last() =~= known);
}

/// An address is listened to exactly where a group has it, and its values are of the kind of
/// the last group that has it.
pub proof fn addresses_are_of_their_groups(
    groups: Seq<(Seq<char>, Seq<Seq<char>>, Seq<char>)>,
    n: nat,
    g: int,
    j: int,
)
    requires
        n <= groups.len(),
        0 <= g < n,
        0 <= j < groups[g].1.len(),
    ensures
        tags_of(groups, n).contains_key(groups[g].0 + groups[g].1[j]),
        (forall|h: int, k: int|
            g < h < n && 0 <= k < groups[h].1.len() ==> (#[trigger] groups[h]).0
                + #[trigger] groups[h].1[k] != groups[g].0 + groups[g].1[j]) ==> tags_of(groups, n)[
        groups[g].0 + groups[g].1[j]] == groups[g].2,
    decreases n,
{
    let address = groups[g].0 + groups[g].1[j];
    let last = groups[n - 1];
    let before = tags_of(groups, (n - 1) as nat);
    if g == n - 1 {
        names_are_put(before, last.0, last.1, last.1.len(), last.2, address);
        assert(last.0 + last.1[j] == address);
    } else {
        addresses_are_of_their_groups(groups, (n - 1) as nat, g, j);
        names_are_put(before, last.0, last.1, last.1.len(), last.2, address);
        if forall|h: int, k: int|
            g < h < n && 0 <= k < groups[h].1.len() ==> (#[trigger] groups[h]).0
                + #[trigger] groups[h].1[k] != address {
            assert forall|k: int| 0 <= k < last.1.len() implies last.0 + #[trigger] last.1[k]
                != address by {
                assert(groups[n - 1].0 + groups[n - 1].1[k] != address);
            }
        }
    }
}

proof fn names_are_put(
    map: Map<Seq<char>, Seq<char>>,
    prefix: Seq<char>,
    names: Seq<Seq<char>>,
    n: nat,
    kind: Seq<char>,
    address: Seq<char>,
)
    requires
        n <= names.len(),
    ensures
        ({
            let all = with_names(map, prefix, names, n, kind);
            let named = exists|k: int| 0 <= k < n && prefix + #[trigger] names[k] == address;
            &&& all.contains_key(address) <==> named || map.contains_key(address)
            &&& named ==> all[address] == kind
            &&& !named && map.contains_key(address) ==> all[address] == map[address]
        }),
    decreases n,
{
    if n > 0 {
        names_are_put(map, prefix, names, (n - 1) as nat, kind, address);
        if prefix + names[n - 1] == address {
            assert(prefix + names[n - 1] == address);
        }
    }
}

/// What is listened to for the record: the state of the avatar and of the camera, each under
/// its address with its type.
pub proof fn states_are_listened_to()
    ensures
        exists|i: int|
            0 <= i < families().len() && #[trigger] families()[i] == (
                "/avatar/parameters/"@,
                seq![
                    "ScaleFactor"@,
                    "ScaleFactorInverse"@,
                    "EyeHeightAsMeters"@,
                    "EyeHeightAsPercent"@,
                    "VelocityX"@,
                    "VelocityY"@,
                    "VelocityZ"@,
                    "VelocityMagnitude"@,
                    "AngularY"@,
                    "Upright"@,
                ],
                "f"@,
            ),
        exists|i: int|
            0 <= i < families().len() && #[trigger] families()[i] == (
                "/avatar/parameters/"@,
                seq!["ScaleModified"@, "Grounded"@, "InStation"@, "Seated"@, "AFK"@],
                "T"@,
            ),
        exists|i: int|
            0 <= i < families().len() && #[trigger] families()[i] == (
                "/avatar/parameters/"@,
                seq!["VRMode"@, "TrackingType"@],
                "i"@,
            ),
        exists|i: int|
            0 <= i < families().len() && #[trigger] families()[i] == (
                "/usercamera/"@,
                seq![
                    "Lock"@,
                    "SmoothMovement"@,
                    "LookAtMe"@,
                    "AutoLevelRoll"@,
                    "AutoLevelPitch"@,
                    "Flying"@,
                    "Streaming"@,
                ],
                "T"@,
            ),
        exists|i: int|
            0 <= i < families().len() && #[trigger] families()[i] == (
                "/usercamera/"@,
                seq!["SmoothingStrength"@, "LookAtMeXOffset"@, "LookAtMeYOffset"@],
                "f"@,
            ),
        exists|i: int|
            0 <= i < families().len() && #[trigger] families()[i] == (
                ""@,
                seq![
                    "/usercamera/Pose"@,
                    "/tracking/vrsystem/head/pose"@,
                    "/tracking/vrsystem/leftwrist/pose"@,
                    "/tracking/vrsystem/rightwrist/pose"@,
                ],
                "ffffff"@,
            ),
        exists|i: int|
            0 <= i < families().len() && #[trigger] families()[i] == (
                ""@,
                seq!["/avatar/change"@],
                "s"@,
            ),
        exists|i: int|
            0 <= i < families().len() && #[trigger] families()[i] == (
                ""@,
                seq!["/usercamera/Mode"@, "/avatar/parameters/VBS/Ref/ProbeVersion"@],
                "i"@,
            ),
{
    let f = families();
    assert(f[0].2 == "ffffff"@ && f[1].2 == "s"@ && f[2].2 == "i"@ && f[3].2 == "f"@ && f[4].2 == "T"@ && f[5].2 == "i"@
        && f[6].2 == "T"@ && f[7].2 == "f"@);
    assert(f[1].1 =~= seq!["/avatar/change"@]);
    assert(f[2].1 =~= seq!["/usercamera/Mode"@, "/avatar/parameters/VBS/Ref/ProbeVersion"@]);
    assert(f[5].1 =~= seq!["VRMode"@, "TrackingType"@]);
}

/// A probe is listened to on each of its twelve coordinates, which are numbers, and on whether
/// it is kept.
pub proof fn probes_are_listened_to()
    ensures
        forall|i: int|
            0 <= i < families().len() && (#[trigger] families()[i]).2 == "f"@ && families()[i].0
                != "/avatar/parameters/"@ && families()[i].0 != "/usercamera/"@
                ==> families()[i].1 == seq![
                "p/x"@,
                "p/x+"@,
                "p/y"@,
                "p/y+"@,
                "p/z"@,
                "p/z+"@,
                "r/x"@,
                "r/x+"@,
                "r/y"@,
                "r/y+"@,
                "r/z"@,
                "r/z+"@,
            ],
        exists|i: int|
            0 <= i < families().len() && (#[trigger] families()[i]).2 == "f"@ && families()[i].0
                == "/avatar/parameters/VBS/Ref/head/"@,
        exists|i: int|
            0 <= i < families().len() && (#[trigger] families()[i]).2 == "f"@ && families()[i].0
                == "/avatar/parameters/VBS/Ref/mouth/"@,
        exists|i: int|
            0 <= i < families().len() && (#[trigger] families()[i]).2 == "f"@ && families()[i].0
                == "/avatar/parameters/VBS/Ref/root/"@,
{
    let f = families();
    reveal_strlit("f");
    reveal_strlit("T");
    reveal_strlit("i");
    reveal_strlit("s");
    reveal_strlit("ffffff");
    assert("f"@.len() == 1 && "ffffff"@.len() == 6 && "f"@[0] == 'f' && "T"@[0] == 'T' && "i"@[0]
        == 'i' && "s"@[0] == 's');
    assert(f[8].0 == "/avatar/parameters/VBS/Ref/head/"@ && f[8].2 == "f"@);
    assert(f[10].0 == "/avatar/parameters/VBS/Ref/mouth/"@ && f[10].2 == "f"@);
    assert(f[12].0 == "/avatar/parameters/VBS/Ref/root/"@ && f[12].2 == "f"@);
    assert forall|i: int|
        0 <= i < f.len() && (#[trigger] f[i]).2 == "f"@ && f[i].0 != "/avatar/parameters/"@
            && f[i].0 != "/usercamera/"@ implies f[i].1 == axes() by {
        assert(f.len() == 14);
    }
}

} // verus!
