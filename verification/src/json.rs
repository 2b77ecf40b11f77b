//! JSON documents as plain values.
use crate::bits;
use crate::text::{same, utf8};
use vstd::prelude::*;
use vstd::utf8::*;

verus! {

/// A number as its readers see it: the integers it can be read as, and the bits of
/// the double it can be read as.
#[derive(Clone, Copy, PartialEq, Eq, Structural, Debug)]
pub struct Number {
    pub signed: Option<i64>,
    pub unsigned: Option<u64>,
    pub bits: u64,
}

/// A JSON document. No key occurs twice in an object.
#[derive(Debug)]
pub enum Json {
    Null,
    Bool(bool),
    Number(Number),
    Text(String),
    Array(Vec<Json>),
    Object(Vec<(String, Json)>),
}

/// A JSON document by its contents.
pub ghost enum Tree {
    Null,
    Bool(bool),
    Number(Number),
    Text(Seq<char>),
    Array(Seq<Tree>),
    Object(Seq<(Seq<char>, Tree)>),
}

impl View for Json {
    type V = Tree;

    open spec fn view(&self) -> Tree {
        tree(*self)
    }
}

pub open spec fn tree(json: Json) -> Tree
    decreases json,
{
    match json {
        Json::Null => Tree::Null,
        Json::Bool(b) => Tree::Bool(b),
        Json::Number(n) => Tree::Number(n),
        Json::Text(s) => Tree::Text(s@),
        Json::Array(a) => Tree::Array(
            Seq::new(
                a@.len(),
                |i: int|
                    if 0 <= i < a@.len() {
                        tree(a@[i])
                    } else {
                        Tree::Null
                    },
            ),
        ),
        Json::Object(o) => Tree::Object(
            Seq::new(
                o@.len(),
                |i: int|
                    if 0 <= i < o@.len() {
                        (o@[i].0@, tree(o@[i].1))
                    } else {
                        (Seq::empty(), Tree::Null)
                    },
            ),
        ),
    }
}

/// What stands at the key, if anything does.
pub open spec fn find(members: Seq<(Seq<char>, Tree)>, key: Seq<char>) -> Option<Tree>
    decreases members.len(),
{
    if members.len() == 0 {
        None
    } else if members[0].0 == key {
        Some(members[0].1)
    } else {
        find(members.drop_first(), key)
    }
}

impl Tree {
    pub open spec fn get(self, key: Seq<char>) -> Option<Tree> {
        match self {
            Tree::Object(members) => find(members, key),
            _ => None,
        }
    }

    pub open spec fn text(self) -> Option<Seq<char>> {
        match self {
            Tree::Text(s) => Some(s),
            _ => None,
        }
    }

    pub open spec fn flag(self) -> Option<bool> {
        match self {
            Tree::Bool(b) => Some(b),
            _ => None,
        }
    }

    pub open spec fn signed(self) -> Option<i64> {
        match self {
            Tree::Number(n) => n.signed,
            _ => None,
        }
    }

    pub open spec fn unsigned(self) -> Option<u64> {
        match self {
            Tree::Number(n) => n.unsigned,
            _ => None,
        }
    }

    pub open spec fn bits(self) -> Option<u64> {
        match self {
            Tree::Number(n) => Some(n.bits),
            _ => None,
        }
    }

    pub open spec fn items(self) -> Option<Seq<Tree>> {
        match self {
            Tree::Array(a) => Some(a),
            _ => None,
        }
    }

    /// The text at a key.
    pub open spec fn text_at(self, key: Seq<char>) -> Option<Seq<char>> {
        match self.get(key) {
            Some(t) => t.text(),
            None => None,
        }
    }

    pub open spec fn flag_at(self, key: Seq<char>) -> Option<bool> {
        match self.get(key) {
            Some(t) => t.flag(),
            None => None,
        }
    }

    pub open spec fn signed_at(self, key: Seq<char>) -> Option<i64> {
        match self.get(key) {
            Some(t) => t.signed(),
            None => None,
        }
    }

    pub open spec fn unsigned_at(self, key: Seq<char>) -> Option<u64> {
        match self.get(key) {
            Some(t) => t.unsigned(),
            None => None,
        }
    }

    pub open spec fn bits_at(self, key: Seq<char>) -> Option<u64> {
        match self.get(key) {
            Some(t) => t.bits(),
            None => None,
        }
    }

    pub open spec fn items_at(self, key: Seq<char>) -> Option<Seq<Tree>> {
        match self.get(key) {
            Some(t) => t.items(),
            None => None,
        }
    }
}

/// The members of an object by their contents.
pub open spec fn members(o: Seq<(String, Json)>) -> Seq<(Seq<char>, Tree)> {
    Seq::new(o.len(), |i: int| (o[i].0@, o[i].1@))
}

impl Json {
    /// What stands at the key of an object.
    pub fn get(&self, key: &str) -> (res: Option<&Json>)
        ensures
            res is Some <==> self@.get(key@) is Some,
            res matches Some(json) ==> self@.get(key@) == Some(json@),
    {
        match self {
            Json::Object(o) => {
                let ghost all = members(o@);
                proof {
                    assert(self@ is Object);
                    assert(self@->Object_0 =~= all);
                    assert(all.skip(0) =~= all);
                }
                let mut i: usize = 0;
                while i < o.len()
                    invariant
                        i <= o.len(),
                        all == members(o@),
                        self@.get(key@) == find(all, key@),
                        find(all, key@) == find(all.skip(i as int), key@),
                    decreases o.len() - i,
                {
                    proof {
                        assert(all.skip(i as int)[0] == all[i as int]);
                        assert(all.skip(i as int).drop_first() =~= all.skip(i + 1));
                    }
                    if same(o[i].0.as_str(), key) {
                        return Some(&o[i].1);
                    }
                    i += 1;
                }
                None
            },
            _ => None,
        }
    }

    pub fn text(&self) -> (res: Option<&String>)
        ensures
            res is Some <==> self@.text() is Some,
            res matches Some(s) ==> self@.text() == Some(s@),
    {
        match self {
            Json::Text(s) => Some(s),
            _ => None,
        }
    }

    pub fn flag(&self) -> (res: Option<bool>)
        ensures
            res == self@.flag(),
    {
        match self {
            Json::Bool(b) => Some(*b),
            _ => None,
        }
    }

    pub fn signed(&self) -> (res: Option<i64>)
        ensures
            res == self@.signed(),
    {
        match self {
            Json::Number(n) => n.signed,
            _ => None,
        }
    }

    pub fn unsigned(&self) -> (res: Option<u64>)
        ensures
            res == self@.unsigned(),
    {
        match self {
            Json::Number(n) => n.unsigned,
            _ => None,
        }
    }

    pub fn bits(&self) -> (res: Option<u64>)
        ensures
            res == self@.bits(),
    {
        match self {
            Json::Number(n) => Some(n.bits),
            _ => None,
        }
    }

    pub fn items(&self) -> (res: Option<&Vec<Json>>)
        ensures
            res is Some <==> self@.items() is Some,
            res matches Some(a) ==> self@.items()->0.len() == a@.len() && forall|i: int|
                0 <= i < a@.len() ==> self@.items()->0[i] == #[trigger] a@[i]@,
    {
        match self {
            Json::Array(a) => Some(a),
            _ => None,
        }
    }

    pub fn text_at(&self, key: &str) -> (res: Option<&String>)
        ensures
            res is Some <==> self@.text_at(key@) is Some,
            res matches Some(s) ==> self@.text_at(key@) == Some(s@),
    {
        match self.get(key) {
            Some(json) => json.text(),
            None => None,
        }
    }

    pub fn flag_at(&self, key: &str) -> (res: Option<bool>)
        ensures
            res == self@.flag_at(key@),
    {
        match self.get(key) {
            Some(json) => json.flag(),
            None => None,
        }
    }

    pub fn signed_at(&self, key: &str) -> (res: Option<i64>)
        ensures
            res == self@.signed_at(key@),
    {
        match self.get(key) {
            Some(json) => json.signed(),
            None => None,
        }
    }

    pub fn unsigned_at(&self, key: &str) -> (res: Option<u64>)
        ensures
            res == self@.unsigned_at(key@),
    {
        match self.get(key) {
            Some(json) => json.unsigned(),
            None => None,
        }
    }

    pub fn bits_at(&self, key: &str) -> (res: Option<u64>)
        ensures
            res == self@.bits_at(key@),
    {
        match self.get(key) {
            Some(json) => json.bits(),
            None => None,
        }
    }
}

/// A copy of a document.
pub fn copy(json: &Json) -> (res: Json)
    ensures
        res@ == json@,
    decreases json,
{
    match json {
        Json::Null => Json::Null,
        Json::Bool(b) => Json::Bool(*b),
        Json::Number(n) => Json::Number(*n),
        Json::Text(s) => Json::Text(s.as_str().to_owned()),
        Json::Array(a) => {
            let mut list: Vec<Json> = Vec::new();
            let mut i: usize = 0;
            while i < a.len()
                invariant
                    i <= a.len(),
                    list.len() == i,
                    json matches Json::Array(all) && all == *a,
                    forall|k: int| 0 <= k < i ==> (#[trigger] list@[k])@ == a@[k]@,
                decreases a.len() - i,
            {
                let one = copy(&a[i]);
                list.push(one);
                i += 1;
            }
            let res = Json::Array(list);
            assert(res@->Array_0 =~= json@->Array_0);
            res
        },
        Json::Object(o) => {
            let mut list: Vec<(String, Json)> = Vec::new();
            let mut i: usize = 0;
            while i < o.len()
                invariant
                    i <= o.len(),
                    list.len() == i,
                    json matches Json::Object(all) && all == *o,
                    forall|k: int|
                        0 <= k < i ==> (#[trigger] list@[k]).0@ == o@[k].0@ && list@[k].1@
                            == o@[k].1@,
                decreases o.len() - i,
            {
                let one = copy(&o[i].1);
                list.push((o[i].0.as_str().to_owned(), one));
                i += 1;
            }
            let res = Json::Object(list);
            assert(res@->Object_0 =~= json@->Object_0);
            res
        },
    }
}

/// Two numbers are the same: of the same kind, and equal. Both zeros are equal.
pub open spec fn numbers_equal(a: Number, b: Number) -> bool {
    &&& a.signed == b.signed
    &&& a.unsigned == b.unsigned
    &&& a.bits == b.bits || (bits::magnitude(a.bits) == 0 && bits::magnitude(b.bits) == 0)
}

/// Two documents are equal.
pub open spec fn equal(a: Tree, b: Tree) -> bool
    decreases a, 0nat,
{
    match (a, b) {
        (Tree::Number(x), Tree::Number(y)) => numbers_equal(x, y),
        (Tree::Array(x), Tree::Array(y)) => x.len() == y.len() && items_equal(x, y, x.len()),
        (Tree::Object(x), Tree::Object(y)) => x.len() == y.len() && members_equal(x, y, x.len()),
        _ => a == b,
    }
}

/// The first `n` items of two arrays are equal.
pub open spec fn items_equal(x: Seq<Tree>, y: Seq<Tree>, n: nat) -> bool
    decreases x, n,
{
    n == 0 || (n <= x.len() && items_equal(x, y, (n - 1) as nat) && equal(x[n - 1], y[n - 1]))
}

/// The first `n` members of two objects are equal.
pub open spec fn members_equal(
    x: Seq<(Seq<char>, Tree)>,
    y: Seq<(Seq<char>, Tree)>,
    n: nat,
) -> bool
    decreases x, n,
{
    n == 0 || (n <= x.len() && members_equal(x, y, (n - 1) as nat) && x[n - 1].0 == y[n - 1].0
        && equal(x[n - 1].1, y[n - 1].1))
}

proof fn fewer_are_equal(x: Seq<Tree>, y: Seq<Tree>, n: nat, m: nat)
    requires
        n <= m,
        items_equal(x, y, m),
    ensures
        items_equal(x, y, n),
    decreases m,
{
    if n < m {
        fewer_are_equal(x, y, n, (m - 1) as nat);
    }
}

proof fn fewer_members_are_equal(
    x: Seq<(Seq<char>, Tree)>,
    y: Seq<(Seq<char>, Tree)>,
    n: nat,
    m: nat,
)
    requires
        n <= m,
        members_equal(x, y, m),
    ensures
        members_equal(x, y, n),
    decreases m,
{
    if n < m {
        fewer_members_are_equal(x, y, n, (m - 1) as nat);
    }
}

/// Whether two documents are equal.
pub fn are_equal(a: &Json, b: &Json) -> (res: bool)
    ensures
        res == equal(a@, b@),
    decreases a,
{
    match (a, b) {
        (Json::Null, Json::Null) => true,
        (Json::Bool(x), Json::Bool(y)) => *x == *y,
        (Json::Number(x), Json::Number(y)) => x.signed == y.signed && x.unsigned == y.unsigned && (
        x.bits == y.bits || (bits::abs(x.bits) == 0 && bits::abs(y.bits) == 0)),
        (Json::Text(x), Json::Text(y)) => same(x.as_str(), y.as_str()),
        (Json::Array(x), Json::Array(y)) => {
            if x.len() != y.len() {
                return false;
            }
            let ghost left = a@->Array_0;
            let ghost right = b@->Array_0;
            let mut i: usize = 0;
            while i < x.len()
                invariant
                    i <= x.len(),
                    x.len() == y.len(),
                    *a == Json::Array(*x),
                    *b == Json::Array(*y),
                    a@ == Tree::Array(left),
                    b@ == Tree::Array(right),
                    items_equal(left, right, i as nat),
                decreases x.len() - i,
            {
                assert(left[i as int] == x@[i as int]@);
                assert(right[i as int] == y@[i as int]@);
                if !are_equal(&x[i], &y[i]) {
                    proof {
                        assert(!items_equal(left, right, (i + 1) as nat));
                        if items_equal(left, right, left.len()) {
                            fewer_are_equal(left, right, (i + 1) as nat, left.len());
                        }
                        reveal_with_fuel(equal, 2);
                    }
                    return false;
                }
                i += 1;
            }
            true
        },
        (Json::Object(x), Json::Object(y)) => {
            if x.len() != y.len() {
                return false;
            }
            let ghost left = a@->Object_0;
            let ghost right = b@->Object_0;
            let mut i: usize = 0;
            while i < x.len()
                invariant
                    i <= x.len(),
                    x.len() == y.len(),
                    *a == Json::Object(*x),
                    *b == Json::Object(*y),
                    a@ == Tree::Object(left),
                    b@ == Tree::Object(right),
                    members_equal(left, right, i as nat),
                decreases x.len() - i,
            {
                assert(left[i as int] == (x@[i as int].0@, x@[i as int].1@));
                assert(right[i as int] == (y@[i as int].0@, y@[i as int].1@));
                if !same(x[i].0.as_str(), y[i].0.as_str()) || !are_equal(&x[i].1, &y[i].1) {
                    proof {
                        assert(!members_equal(left, right, (i + 1) as nat));
                        if members_equal(left, right, left.len()) {
                            fewer_members_are_equal(left, right, (i + 1) as nat, left.len());
                        }
                        reveal_with_fuel(equal, 2);
                    }
                    return false;
                }
                i += 1;
            }
            true
        },
        _ => false,
    }
}

/// What stands at the key once another member has been put in.
proof fn find_after_update(all: Seq<(Seq<char>, Tree)>, at: int, value: Tree, key: Seq<char>)
    requires
        0 <= at < all.len(),
        forall|k: int| 0 <= k < at ==> (#[trigger] all[k]).0 != all[at].0,
    ensures
        find(all.update(at, (all[at].0, value)), key) == (if key == all[at].0 {
            Some(value)
        } else {
            find(all, key)
        }),
    decreases all.len(),
{
    let put = all.update(at, (all[at].0, value));
    if at > 0 {
        let rest = all.drop_first();
        assert(put.drop_first() =~= rest.update(at - 1, (rest[at - 1].0, value)));
        assert forall|k: int| 0 <= k < at - 1 implies (#[trigger] rest[k]).0 != rest[at - 1].0 by {
            assert(all[k + 1].0 != all[at].0);
        }
        find_after_update(rest, at - 1, value, key);
        assert(all[0].0 != all[at].0);
    } else {
        assert(put.drop_first() =~= all.drop_first());
    }
}

proof fn find_after_push(
    all: Seq<(Seq<char>, Tree)>,
    name: Seq<char>,
    value: Tree,
    key: Seq<char>,
)
    requires
        forall|k: int| 0 <= k < all.len() ==> (#[trigger] all[k]).0 != name,
    ensures
        find(all.push((name, value)), key) == (if key == name {
            Some(value)
        } else {
            find(all, key)
        }),
    decreases all.len(),
{
    let put = all.push((name, value));
    if all.len() > 0 {
        let rest = all.drop_first();
        assert(put.drop_first() =~= rest.push((name, value)));
        assert forall|k: int| 0 <= k < rest.len() implies (#[trigger] rest[k]).0 != name by {
            assert(all[k + 1].0 != name);
        }
        find_after_push(rest, name, value, key);
        assert(all[0].0 != name);
    } else {
        assert(put.drop_first() =~= Seq::<(Seq<char>, Tree)>::empty());
        assert(find(put.drop_first(), key) is None);
    }
}

/// Puts one member into an object, in the place of the one that had its key.
fn put(list: &mut Vec<(String, Json)>, key: &str, value: Json)
    ensures
        forall|k: Seq<char>| #[trigger]
            find(members(final(list)@), k) == (if k == key@ {
                Some(value@)
            } else {
                find(members(old(list)@), k)
            }),
{
    let ghost was = members(list@);
    let mut i: usize = 0;
    while i < list.len()
        invariant
            i <= list.len(),
            was == members(list@),
            list@ == old(list)@,
            forall|k: int| 0 <= k < i ==> (#[trigger] was[k]).0 != key@,
        decreases list.len() - i,
    {
        if same(list[i].0.as_str(), key) {
            let name = key.to_owned();
            proof {
                assert(was[i as int].0 == key@);
                assert forall|k: Seq<char>| #[trigger]
                    find(was.update(i as int, (key@, value@)), k) == (if k == key@ {
                        Some(value@)
                    } else {
                        find(was, k)
                    }) by {
                    find_after_update(was, i as int, value@, k);
                }
            }
            list.set(i, (name, value));
            assert(members(list@) =~= was.update(i as int, (key@, value@)));
            return;
        }
        assert(was[i as int].0 != key@);
        i += 1;
    }
    proof {
        assert forall|k: Seq<char>| #[trigger]
            find(was.push((key@, value@)), k) == (if k == key@ {
                Some(value@)
            } else {
                find(was, k)
            }) by {
            find_after_push(was, key@, value@, k);
        }
    }
    list.push((key.to_owned(), value));
    assert(members(list@) =~= was.push((key@, value@)));
}

/// One object with the members of another in it; where both have a key, the other's
/// member stands.
pub fn extended(base: &Json, more: &Json) -> (res: Option<Json>)
    ensures
        res is Some <==> base@ is Object && more@ is Object,
        res matches Some(json) ==> json@ is Object && forall|key: Seq<char>| #[trigger]
            json@.get(key) == (if more@.get(key) is Some {
                more@.get(key)
            } else {
                base@.get(key)
            }),
{
    match (copy(base), more) {
        (Json::Object(start), Json::Object(new)) => {
            let mut list = start;
            let ghost first = members(list@);
            let ghost all = members(new@);
            proof {
                assert(Json::Object(list)@->Object_0 =~= first);
                assert(more@->Object_0 =~= all);
                assert(base@->Object_0 == first);
                assert(all.skip(all.len() as int) =~= Seq::<(Seq<char>, Tree)>::empty());
            }
            let mut i: usize = new.len();
            while i > 0
                invariant
                    i <= new.len(),
                    all == members(new@),
                    forall|key: Seq<char>| #[trigger]
                        find(members(list@), key) == (if find(all.skip(i as int), key) is Some {
                            find(all.skip(i as int), key)
                        } else {
                            find(first, key)
                        }),
                decreases i,
            {
                i -= 1;
                proof {
                    assert(all.skip(i as int)[0] == all[i as int]);
                    assert(all.skip(i as int).drop_first() =~= all.skip(i + 1));
                }
                let value = copy(&new[i].1);
                put(&mut list, new[i].0.as_str(), value);
            }
            proof {
                assert(all.skip(0) =~= all);
            }
            let json = Json::Object(list);
            assert(json@->Object_0 =~= members(list@));
            Some(json)
        },
        _ => None,
    }
}

/// `serde_json::Value`, held only between the parser and the document.
#[verifier::external_type_specification]
#[verifier::external_body]
pub struct ExValue(serde_json::Value);

/// `serde_json::Error`: why a text is no JSON document.
#[verifier::external_type_specification]
#[verifier::external_body]
pub struct ExParseError(serde_json::Error);

/// The document that a `serde_json::Value` holds.
pub uninterp spec fn held(value: serde_json::Value) -> Tree;

/// What `serde_json::from_str` makes of a text.
pub uninterp spec fn parsed(text: Seq<char>) -> Option<Tree>;

/// `serde_json::from_str` into a `serde_json::Value`. Whether the text is a JSON
/// document, and which, depends on the text alone.
#[verifier::external_body]
fn read_value(text: &str) -> (res: Result<serde_json::Value, serde_json::Error>)
    ensures
        res matches Ok(value) ==> parsed(text@) == Some(held(value)),
        res is Err ==> parsed(text@) is None,
{
    serde_json::from_str(text)
}

/// A `serde_json::Value` as a document: `null` as null, and so on for each of its
/// kinds; a number through `as_i64`, `as_u64` and the bits of `as_f64`.
#[verifier::external_body]
fn document(value: serde_json::Value) -> (json: Json)
    ensures
        json@ == held(value),
{
    match value {
        serde_json::Value::Null => Json::Null,
        serde_json::Value::Bool(b) => Json::Bool(b),
        serde_json::Value::Number(n) => Json::Number(Number {
            signed: n.as_i64(),
            unsigned: n.as_u64(),
            bits: n.as_f64().map_or(0, |v| v.to_bits()),
        }),
        serde_json::Value::String(s) => Json::Text(s),
        serde_json::Value::Array(a) => Json::Array(a.into_iter().map(document).collect()),
        serde_json::Value::Object(o) => Json::Object(
            o.into_iter().map(|(key, v)| (key, document(v))).collect(),
        ),
    }
}

/// How large a document may be that is read from a file.
pub const DOCUMENT_BYTES: usize = 0x400_0000;

/// Why bytes are no document.
#[derive(Clone, Copy, PartialEq, Eq, Structural, Debug)]
pub enum ReadError {
    /// They are too many.
    Size,
    /// They are no text, or the text is no JSON.
    Malformed,
}

/// The document that bytes hold, if they are one.
pub open spec fn document_in(bytes: Seq<u8>) -> Option<Tree> {
    if valid_utf8(bytes) {
        parsed(decode_utf8(bytes))
    } else {
        None
    }
}

/// The document that bytes hold, however many they are.
pub fn parse_bytes(bytes: &[u8]) -> (res: Option<Json>)
    ensures
        res is Some <==> document_in(bytes@) is Some,
        res matches Some(json) ==> document_in(bytes@) == Some(json@),
{
    match utf8(bytes) {
        Some(text) => parse(&text),
        None => None,
    }
}

/// The document that the bytes of a file hold.
pub fn read(bytes: &[u8]) -> (res: Result<Json, ReadError>)
    ensures
        bytes.len() > DOCUMENT_BYTES ==> res == Err::<Json, _>(ReadError::Size),
        bytes.len() <= DOCUMENT_BYTES && document_in(bytes@) is None ==> res == Err::<Json, _>(
            ReadError::Malformed,
        ),
        bytes.len() <= DOCUMENT_BYTES && document_in(bytes@) is Some ==> (res matches Ok(json)
            && document_in(bytes@) == Some(json@)),
{
    if bytes.len() > DOCUMENT_BYTES {
        return Err(ReadError::Size);
    }
    match parse_bytes(bytes) {
        Some(json) => Ok(json),
        None => Err(ReadError::Malformed),
    }
}

/// Parses a text.
pub fn parse(text: &str) -> (res: Option<Json>)
    ensures
        res is Some <==> parsed(text@) is Some,
        res matches Some(json) ==> parsed(text@) == Some(json@),
{
    match read_value(text) {
        Ok(value) => Some(document(value)),
        Err(_) => None,
    }
}

/// What stands at a key of an object is the first member with that key.
pub proof fn members_are_found_by_their_keys(list: Seq<(Seq<char>, Tree)>, key: Seq<char>, i: int)
    ensures
        0 <= i < list.len() && list[i].0 == key && (forall|j: int|
            0 <= j < i ==> (#[trigger] list[j]).0 != key) ==> Tree::Object(list).get(key) == Some(
            list[i].1,
        ),
        (forall|j: int| 0 <= j < list.len() ==> (#[trigger] list[j]).0 != key) ==> Tree::Object(
            list,
        ).get(key) is None,
    decreases list.len(),
{
    if list.len() > 0 {
        let rest = list.drop_first();
        members_are_found_by_their_keys(rest, key, i - 1);
        if 0 < i < list.len() && list[i].0 == key && (forall|j: int|
            0 <= j < i ==> (#[trigger] list[j]).0 != key) {
            assert(list[0].0 != key);
            assert(rest[i - 1] == list[i]);
            assert forall|j: int| 0 <= j < i - 1 implies (#[trigger] rest[j]).0 != key by {
                assert(list[j + 1].0 != key);
            }
        }
        if forall|j: int| 0 <= j < list.len() ==> (#[trigger] list[j]).0 != key {
            assert(list[0].0 != key);
            assert forall|j: int| 0 <= j < rest.len() implies (#[trigger] rest[j]).0 != key by {
                assert(list[j + 1].0 != key);
            }
        }
    }
}

/// A value is read as what it is, and as nothing else.
pub proof fn values_are_read_as_what_they_are(t: Tree, n: Number, key: Seq<char>)
    ensures
        Tree::Number(n).signed() == n.signed,
        Tree::Number(n).unsigned() == n.unsigned,
        Tree::Number(n).bits() == Some(n.bits),
        t.text() matches Some(s) ==> t == Tree::Text(s),
        t.flag() matches Some(b) ==> t == Tree::Bool(b),
        t.items() matches Some(a) ==> t == Tree::Array(a),
        t is Text ==> t.text() is Some,
        t is Bool ==> t.flag() is Some,
        t is Array ==> t.items() is Some,
        !(t is Number) ==> t.signed() is None && t.unsigned() is None && t.bits() is None,
        !(t is Object) ==> t.get(key) is None,
        t.get(key) matches Some(v) ==> t.text_at(key) == v.text() && t.flag_at(key) == v.flag()
            && t.signed_at(key) == v.signed() && t.unsigned_at(key) == v.unsigned() && t.bits_at(key)
            == v.bits() && t.items_at(key) == v.items(),
        t.get(key) is None ==> t.text_at(key) is None && t.flag_at(key) is None && t.signed_at(
            key,
        ) is None && t.unsigned_at(key) is None && t.bits_at(key) is None && t.items_at(
            key,
        ) is None,
{
}

/// A document equals itself; and of two that are equal each item equals the one in its
/// place, and each member the one in its place under the same key.
pub proof fn equal_documents_are_alike(a: Tree, b: Tree, i: int)
    ensures
        equal(a, b) ==> {
            &&& a is Null <==> b is Null
            &&& a is Text || a is Bool ==> a == b
            &&& a is Array ==> b is Array && a->Array_0.len() == b->Array_0.len()
            &&& a is Object ==> b is Object && a->Object_0.len() == b->Object_0.len()
            &&& a is Array && 0 <= i < a->Array_0.len() ==> equal(a->Array_0[i], b->Array_0[i])
            &&& a is Object && 0 <= i < a->Object_0.len() ==> a->Object_0[i].0 == b->Object_0[i].0
                && equal(a->Object_0[i].1, b->Object_0[i].1)
            &&& a is Number ==> (b is Number && a->Number_0.signed == b->Number_0.signed
                && a->Number_0.unsigned == b->Number_0.unsigned)
        },
{
    if equal(a, b) {
        if a is Array && 0 <= i < a->Array_0.len() {
            fewer_are_equal(a->Array_0, b->Array_0, (i + 1) as nat, a->Array_0.len());
        }
        if a is Object && 0 <= i < a->Object_0.len() {
            fewer_members_are_equal(a->Object_0, b->Object_0, (i + 1) as nat, a->Object_0.len());
        }
    }
}

/// Numbers are the same where they are of one kind and equal; the two zeros are equal.
pub proof fn zeros_are_equal(a: Number, b: Number)
    requires
        a.signed == b.signed,
        a.unsigned == b.unsigned,
    ensures
        a.bits == b.bits ==> numbers_equal(a, b),
        a.bits == 0 && b.bits == 0x8000_0000_0000_0000 ==> numbers_equal(a, b),
        numbers_equal(a, b) && a.bits != b.bits ==> a.bits % 0x8000_0000_0000_0000 == 0 && b.bits
            % 0x8000_0000_0000_0000 == 0,
        numbers_equal(a, b) == numbers_equal(b, a),
{
    bits::patterns_are_doubles(a.bits);
    bits::patterns_are_doubles(b.bits);
}

/// Bytes hold a document exactly where they are text and the text is one.
pub proof fn documents_are_text(bytes: Seq<u8>)
    ensures
        document_in(bytes) is Some <==> valid_utf8(bytes) && parsed(decode_utf8(bytes)) is Some,
        document_in(bytes) matches Some(t) ==> parsed(decode_utf8(bytes)) == Some(t),
{
}

} // verus!
