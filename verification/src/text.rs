//! Text: comparison of strings by their characters, and a map that is kept in
//! the order of its keys.
use vstd::prelude::*;
use vstd::utf8::*;

verus! {

broadcast use vstd::string::group_string_axioms;

/// `std::str::from_utf8`, with the text copied out. It succeeds exactly on
/// well-formed UTF-8 and then gives the characters that the bytes encode.
#[verifier::external_body]
pub(crate) fn utf8(bytes: &[u8]) -> (res: Option<String>)
    ensures
        res is Some <==> valid_utf8(bytes@),
        res matches Some(text) ==> text@ == decode_utf8(bytes@),
{
    std::str::from_utf8(bytes).ok().map(str::to_owned)
}

/// The characters of a string, in order.
pub fn chars_of(text: &str) -> (out: Vec<char>)
    ensures
        out@ == text@,
{
    let mut out: Vec<char> = Vec::new();
    for c in it: text.chars()
        invariant
            it.seq() == text@,
            out@ == text@.take(it.index() as int),
    {
        out.push(c);
        assert(out@ =~= text@.take(it.index() + 1));
    }
    assert(text@.take(text@.len() as int) =~= text@);
    out
}

/// Whether two strings hold the same characters.
pub fn same(a: &str, b: &str) -> (res: bool)
    ensures
        res == (a@ == b@),
{
    let x = chars_of(a);
    let y = chars_of(b);
    if x.len() != y.len() {
        return false;
    }
    let mut i: usize = 0;
    while i < x.len()
        invariant
            x@ == a@,
            y@ == b@,
            x.len() == y.len(),
            i <= x.len(),
            forall|k: int| 0 <= k < i ==> x@[k] == y@[k],
        decreases x.len() - i,
    {
        if x[i] != y[i] {
            return false;
        }
        i += 1;
    }
    assert(x@ =~= y@);
    true
}

/// Whether `prefix` is where `text` begins.
pub open spec fn begins(text: Seq<char>, prefix: Seq<char>) -> bool {
    prefix.len() <= text.len() && text.take(prefix.len() as int) == prefix
}

/// Whether `suffix` is where `text` ends.
pub open spec fn ends(text: Seq<char>, suffix: Seq<char>) -> bool {
    suffix.len() <= text.len() && text.skip(text.len() - suffix.len()) == suffix
}

/// Whether the characters begin with a text.
pub fn chars_begin(x: &Vec<char>, prefix: &str) -> (res: bool)
    ensures
        res == begins(x@, prefix@),
{
    let y = chars_of(prefix);
    if y.len() > x.len() {
        return false;
    }
    let mut i: usize = 0;
    while i < y.len()
        invariant
            y@ == prefix@,
            y.len() <= x.len(),
            i <= y.len(),
            forall|k: int| 0 <= k < i ==> x@[k] == y@[k],
        decreases y.len() - i,
    {
        if x[i] != y[i] {
            assert(x@.take(prefix@.len() as int)[i as int] != prefix@[i as int]);
            return false;
        }
        i += 1;
    }
    assert(x@.take(prefix@.len() as int) =~= prefix@);
    true
}

/// Whether the characters end with a text.
pub fn chars_end(x: &Vec<char>, suffix: &str) -> (res: bool)
    ensures
        res == ends(x@, suffix@),
{
    let y = chars_of(suffix);
    if y.len() > x.len() {
        return false;
    }
    let first: usize = x.len() - y.len();
    let mut i: usize = 0;
    while i < y.len()
        invariant
            y@ == suffix@,
            first == x.len() - y.len(),
            y.len() <= x.len(),
            i <= y.len(),
            forall|k: int| 0 <= k < i ==> #[trigger] x@[first + k] == y@[k],
        decreases y.len() - i,
    {
        if x[first + i] != y[i] {
            assert(x@.skip(first as int)[i as int] != suffix@[i as int]);
            return false;
        }
        i += 1;
    }
    assert(x@.skip(first as int) =~= suffix@) by {
        assert forall|k: int| 0 <= k < suffix@.len() implies x@.skip(first as int)[k]
            == suffix@[k] by {
            assert(x@[first + k] == y@[k]);
        }
    }
    true
}

pub fn starts_with(text: &str, prefix: &str) -> (res: bool)
    ensures
        res == begins(text@, prefix@),
{
    chars_begin(&chars_of(text), prefix)
}

pub fn ends_with(text: &str, suffix: &str) -> (res: bool)
    ensures
        res == ends(text@, suffix@),
{
    chars_end(&chars_of(text), suffix)
}

/// `a` comes before `b` because they agree up to `i` and part there.
pub open spec fn parts_at(a: Seq<char>, b: Seq<char>, i: int) -> bool {
    &&& 0 <= i <= a.len()
    &&& i < b.len()
    &&& forall|k: int| 0 <= k < i ==> #[trigger] a[k] == #[trigger] b[k]
    &&& i == a.len() || a[i] < b[i]
}

/// The order of strings: by the first character in which they differ, a
/// beginning before what continues it. The UTF-8 bytes order them alike.
pub open spec fn before(a: Seq<char>, b: Seq<char>) -> bool {
    exists|i: int| parts_at(a, b, i)
}

/// What comes before something comes before what comes after that.
pub proof fn before_is_transitive(a: Seq<char>, b: Seq<char>, c: Seq<char>)
    requires
        before(a, b),
        before(b, c),
    ensures
        before(a, c),
{
    let i = choose|i: int| parts_at(a, b, i);
    let j = choose|j: int| parts_at(b, c, j);
    let k = if i < j {
        i
    } else {
        j
    };
    assert(forall|n: int| 0 <= n < k ==> a[n] == b[n] && b[n] == c[n]);
    assert(parts_at(a, c, k));
}

proof fn before_is_strict(a: Seq<char>, b: Seq<char>)
    requires
        before(a, b),
    ensures
        a != b,
        !before(b, a),
{
    let i = choose|i: int| parts_at(a, b, i);
    if before(b, a) {
        let j = choose|j: int| parts_at(b, a, j);
        if i < j {
            assert(a[i] == b[i]);
        } else if j < i {
            assert(a[j] == b[j]);
        }
    }
}

/// Of two different strings one comes before the other.
pub proof fn one_comes_first(a: Seq<char>, b: Seq<char>)
    ensures
        before(a, b) || before(b, a) || a == b,
{
    one_comes_first_from(a, b, 0);
}

proof fn one_comes_first_from(a: Seq<char>, b: Seq<char>, i: int)
    requires
        0 <= i <= a.len(),
        i <= b.len(),
        forall|k: int| 0 <= k < i ==> #[trigger] a[k] == #[trigger] b[k],
    ensures
        before(a, b) || before(b, a) || a == b,
    decreases a.len() - i,
{
    if i == a.len() && i == b.len() {
        assert(a =~= b);
    } else if i == a.len() {
        assert(parts_at(a, b, i));
    } else if i == b.len() {
        assert(parts_at(b, a, i));
    } else if a[i] < b[i] {
        assert(parts_at(a, b, i));
    } else if b[i] < a[i] {
        assert(parts_at(b, a, i));
    } else {
        one_comes_first_from(a, b, i + 1);
    }
}

/// How two strings stand to each other.
#[derive(Clone, Copy, PartialEq, Eq, Structural, Debug)]
pub enum Relation {
    Before,
    Same,
    After,
}

/// Compares two strings character by character.
pub fn relate(a: &str, b: &str) -> (res: Relation)
    ensures
        res == Relation::Before <==> before(a@, b@),
        res == Relation::Same <==> a@ == b@,
        res == Relation::After <==> before(b@, a@),
{
    let x = chars_of(a);
    let y = chars_of(b);
    let mut i: usize = 0;
    while i < x.len() && i < y.len()
        invariant
            x@ == a@,
            y@ == b@,
            i <= x.len(),
            i <= y.len(),
            forall|k: int| 0 <= k < i ==> #[trigger] x@[k] == #[trigger] y@[k],
        decreases x.len() - i,
    {
        if x[i] < y[i] {
            proof {
                assert(parts_at(a@, b@, i as int));
                before_is_strict(a@, b@);
            }
            return Relation::Before;
        }
        if y[i] < x[i] {
            proof {
                assert(parts_at(b@, a@, i as int));
                before_is_strict(b@, a@);
            }
            return Relation::After;
        }
        i += 1;
    }
    if x.len() == y.len() {
        proof {
            assert(x@ =~= y@);
            if before(a@, b@) {
                before_is_strict(a@, b@);
            }
        }
        Relation::Same
    } else if x.len() < y.len() {
        proof {
            assert(parts_at(a@, b@, i as int));
            before_is_strict(a@, b@);
        }
        Relation::Before
    } else {
        proof {
            assert(parts_at(b@, a@, i as int));
            before_is_strict(b@, a@);
        }
        Relation::After
    }
}

/// A map from strings to values, kept in the order of its keys.
#[derive(Debug)]
pub struct TextMap<V> {
    entries: Vec<(String, V)>,
}

impl<V> View for TextMap<V> {
    type V = Map<Seq<char>, V>;

    closed spec fn view(&self) -> Map<Seq<char>, V> {
        Map::new(
            |key: Seq<char>| exists|i: int| self.holds(i, key),
            |key: Seq<char>| self.entries@[choose|i: int| self.holds(i, key)].1,
        )
    }
}

impl<V> TextMap<V> {
    spec fn holds(&self, i: int, key: Seq<char>) -> bool {
        0 <= i < self.entries.len() && self.entries@[i].0@ == key
    }

    /// The keys in their order.
    pub closed spec fn keys(&self) -> Seq<Seq<char>> {
        Seq::new(self.entries@.len(), |i: int| self.entries@[i].0@)
    }

    /// The keys stand in strictly rising order, so none occurs twice.
    pub closed spec fn wf(&self) -> bool {
        forall|i: int, j: int|
            0 <= i < j < self.entries.len() ==> before(
                #[trigger] self.entries@[i].0@,
                #[trigger] self.entries@[j].0@,
            )
    }

    proof fn entry_is_value(&self, i: int)
        requires
            self.wf(),
            0 <= i < self.entries.len(),
        ensures
            self@.contains_key(self.entries@[i].0@),
            self@[self.entries@[i].0@] == self.entries@[i].1,
            forall|j: int| self.holds(j, self.entries@[i].0@) ==> j == i,
    {
        let key = self.entries@[i].0@;
        assert(self.holds(i, key));
        assert forall|j: int| self.holds(j, key) implies j == i by {
            if j < i {
                before_is_strict(self.entries@[j].0@, self.entries@[i].0@);
            } else if i < j {
                before_is_strict(self.entries@[i].0@, self.entries@[j].0@);
            }
        }
    }

    /// Every key of the map is one of `keys`, in their strict order, and every one
    /// of those is a key of the map.
    pub proof fn keys_are_the_domain(&self)
        requires
            self.wf(),
        ensures
            forall|key: Seq<char>| self@.contains_key(key) <==> self.keys().contains(key),
            forall|i: int, j: int|
                0 <= i < j < self.keys().len() ==> before(
                    #[trigger] self.keys()[i],
                    #[trigger] self.keys()[j],
                ),
    {
        assert forall|key: Seq<char>| self@.contains_key(key) <==> self.keys().contains(key) by {
            if self@.contains_key(key) {
                let i = choose|i: int| self.holds(i, key);
                assert(self.keys()[i] == key);
            }
            if self.keys().contains(key) {
                let i = choose|i: int| 0 <= i < self.keys().len() && self.keys()[i] == key;
                assert(self.holds(i, key));
            }
        }
    }

    pub fn new() -> (map: Self)
        ensures
            map.wf(),
            map@ == Map::<Seq<char>, V>::empty(),
            map.keys() == Seq::<Seq<char>>::empty(),
    {
        let map = TextMap { entries: Vec::new() };
        assert(map@ =~= Map::<Seq<char>, V>::empty());
        assert(map.keys() =~= Seq::<Seq<char>>::empty());
        map
    }

    pub fn len(&self) -> (n: usize)
        requires
            self.wf(),
        ensures
            n == self.keys().len(),
            n == self@.dom().len(),
            self@.dom().finite(),
    {
        proof {
            self.keys_are_the_domain();
            let keys = self.keys();
            assert(keys.no_duplicates()) by {
                assert forall|i: int, j: int| 0 <= i < j < keys.len() implies keys[i] != keys[j] by {
                    before_is_strict(keys[i], keys[j]);
                }
            }
            keys.unique_seq_to_set();
            assert(self@.dom() =~= keys.to_set());
        }
        self.entries.len()
    }

    /// Where the key is, or where it belongs.
    fn locate(&self, key: &str) -> (res: (usize, bool))
        requires
            self.wf(),
        ensures
            res.0 <= self.entries.len(),
            res.1 ==> self.holds(res.0 as int, key@),
            !res.1 ==> !self@.contains_key(key@),
            forall|i: int| 0 <= i < res.0 ==> before(#[trigger] self.entries@[i].0@, key@),
            !res.1 ==> forall|i: int|
                res.0 <= i < self.entries.len() ==> before(key@, #[trigger] self.entries@[i].0@),
    {
        let mut i: usize = 0;
        while i < self.entries.len()
            invariant
                self.wf(),
                i <= self.entries.len(),
                forall|k: int| 0 <= k < i ==> before(#[trigger] self.entries@[k].0@, key@),
            decreases self.entries.len() - i,
        {
            match relate(&self.entries[i].0, key) {
                Relation::Before => {
                    i += 1;
                },
                Relation::Same => {
                    return (i, true);
                },
                Relation::After => {
                    proof {
                        let here = self.entries@[i as int].0@;
                        assert forall|k: int| i <= k < self.entries.len() implies before(
                            key@,
                            #[trigger] self.entries@[k].0@,
                        ) by {
                            if i < k {
                                before_is_transitive(key@, here, self.entries@[k].0@);
                            }
                        }
                        self.absent(key@, i as int);
                    }
                    return (i, false);
                },
            }
        }
        proof {
            self.absent(key@, i as int);
        }
        (i, false)
    }

    proof fn absent(&self, key: Seq<char>, at: int)
        requires
            self.wf(),
            0 <= at <= self.entries.len(),
            forall|i: int| 0 <= i < at ==> before(#[trigger] self.entries@[i].0@, key),
            forall|i: int| at <= i < self.entries.len() ==> before(key, #[trigger] self.entries@[i].0@),
        ensures
            !self@.contains_key(key),
    {
        if self@.contains_key(key) {
            let i = choose|i: int| self.holds(i, key);
            if i < at {
                before_is_strict(self.entries@[i].0@, key);
            } else {
                before_is_strict(key, self.entries@[i].0@);
            }
        }
    }

    pub fn get(&self, key: &str) -> (res: Option<&V>)
        requires
            self.wf(),
        ensures
            res is Some <==> self@.contains_key(key@),
            res matches Some(value) ==> *value == self@[key@],
    {
        let (i, found) = self.locate(key);
        if found {
            proof {
                self.entry_is_value(i as int);
            }
            Some(&self.entries[i].1)
        } else {
            None
        }
    }

    /// Puts the value at the key, in place of what was there.
    pub fn insert(&mut self, key: String, value: V)
        requires
            old(self).wf(),
        ensures
            final(self).wf(),
            final(self)@ == old(self)@.insert(key@, value),
    {
        let (i, found) = self.locate(key.as_str());
        let ghost was = *self;
        let ghost name = key@;
        if found {
            self.entries.set(i, (key, value));
        } else {
            self.entries.insert(i, (key, value));
        }
        proof {
            let now = *self;
            let at = i as int;
            assert(now.entries@[at].0@ == name);
            assert forall|a: int, b: int| 0 <= a < b < now.entries.len() implies before(
                #[trigger] now.entries@[a].0@,
                #[trigger] now.entries@[b].0@,
            ) by {
                if !found {
                    let p = if a <= at {
                        a
                    } else {
                        a - 1
                    };
                    let q = if b <= at {
                        b
                    } else {
                        b - 1
                    };
                    if a != at && b != at {
                        assert(now.entries@[a] == was.entries@[p]);
                        assert(now.entries@[b] == was.entries@[q]);
                        assert(before(was.entries@[p].0@, was.entries@[q].0@));
                    } else if a == at {
                        assert(now.entries@[b] == was.entries@[q]);
                    } else {
                        assert(now.entries@[a] == was.entries@[p]);
                    }
                } else {
                    assert(now.entries@[a].0@ == was.entries@[a].0@);
                    assert(now.entries@[b].0@ == was.entries@[b].0@);
                }
            }
            assert(now.wf());
            let want = was@.insert(name, value);
            assert forall|key: Seq<char>| now@.contains_key(key) == want.contains_key(key) by {
                if now@.contains_key(key) {
                    let j = choose|j: int| now.holds(j, key);
                    if j != at {
                        let p = if j < at || found {
                            j
                        } else {
                            j - 1
                        };
                        assert(now.entries@[j] == was.entries@[p]);
                        assert(was.holds(p, key));
                    }
                }
                if want.contains_key(key) {
                    if key == name {
                        assert(now.holds(at, key));
                    } else {
                        let p = choose|p: int| was.holds(p, key);
                        let j = if p < at || found {
                            p
                        } else {
                            p + 1
                        };
                        assert(now.entries@[j] == was.entries@[p]);
                        assert(now.holds(j, key));
                    }
                }
            }
            assert forall|key: Seq<char>| now@.contains_key(key) implies now@[key] == want[key] by {
                let j = choose|j: int| now.holds(j, key);
                now.entry_is_value(j);
                if j == at {
                } else {
                    let p = if j < at || found {
                        j
                    } else {
                        j - 1
                    };
                    assert(now.entries@[j] == was.entries@[p]);
                    was.entry_is_value(p);
                    now.entry_is_value(at);
                    assert(key != name);
                }
            }
            assert(now@ =~= want);
        }
    }

    /// Takes the key out, if it is there.
    pub fn remove(&mut self, key: &str)
        requires
            old(self).wf(),
        ensures
            final(self).wf(),
            final(self)@ == old(self)@.remove(key@),
    {
        let (i, found) = self.locate(key);
        let ghost was = *self;
        if found {
            let _ = self.entries.remove(i);
        }
        proof {
            let now = *self;
            let at = i as int;
            if found {
                was.entry_is_value(at);
                assert forall|a: int, b: int| 0 <= a < b < now.entries.len() implies before(
                    #[trigger] now.entries@[a].0@,
                    #[trigger] now.entries@[b].0@,
                ) by {
                    let p = if a < at {
                        a
                    } else {
                        a + 1
                    };
                    let q = if b < at {
                        b
                    } else {
                        b + 1
                    };
                    assert(now.entries@[a] == was.entries@[p]);
                    assert(now.entries@[b] == was.entries@[q]);
                }
                assert(now.wf());
                let want = was@.remove(key@);
                assert forall|k: Seq<char>| now@.contains_key(k) == want.contains_key(k) by {
                    if now@.contains_key(k) {
                        let j = choose|j: int| now.holds(j, k);
                        let p = if j < at {
                            j
                        } else {
                            j + 1
                        };
                        assert(now.entries@[j] == was.entries@[p]);
                        assert(was.holds(p, k));
                        was.entry_is_value(p);
                        assert(k != key@);
                    }
                    if want.contains_key(k) {
                        let p = choose|p: int| was.holds(p, k);
                        let j = if p < at {
                            p
                        } else {
                            p - 1
                        };
                        assert(now.entries@[j] == was.entries@[p]);
                        assert(now.holds(j, k));
                    }
                }
                assert forall|k: Seq<char>| now@.contains_key(k) implies now@[k] == want[k] by {
                    let j = choose|j: int| now.holds(j, k);
                    now.entry_is_value(j);
                    let p = if j < at {
                        j
                    } else {
                        j + 1
                    };
                    assert(now.entries@[j] == was.entries@[p]);
                    was.entry_is_value(p);
                }
                assert(now@ =~= want);
            } else {
                assert(was@ =~= was@.remove(key@));
            }
        }
    }

    /// The key and the value at a place in the order.
    pub fn entry(&self, i: usize) -> (res: (&String, &V))
        requires
            self.wf(),
            i < self.keys().len(),
        ensures
            res.0@ == self.keys()[i as int],
            self@.contains_key(res.0@),
            *res.1 == self@[res.0@],
    {
        proof {
            self.entry_is_value(i as int);
        }
        (&self.entries[i].0, &self.entries[i].1)
    }
}

/// Texts stand in the order of the first characters in which they differ, whatever follows;
/// a text stands before every longer one that it begins.
pub proof fn texts_part_at_their_first_difference(
    common: Seq<char>,
    x: char,
    y: char,
    a: Seq<char>,
    b: Seq<char>,
)
    requires
        (x as u32) < (y as u32),
    ensures
        before(common + seq![x] + a, common + seq![y] + b),
        !before(common + seq![y] + b, common + seq![x] + a),
        before(common, common + seq![y] + b),
        !before(common + seq![y] + b, common),
        !before(common, common),
{
    let p = common + seq![x] + a;
    let q = common + seq![y] + b;
    let n = common.len() as int;
    assert(parts_at(p, q, n));
    before_is_strict(p, q);
    assert(parts_at(common, q, n));
    before_is_strict(common, q);
    if before(common, common) {
        before_is_strict(common, common);
    }
}

/// A text begins with what stands at its beginning and ends with what stands at its end, and
/// with nothing that is longer than it.
pub proof fn texts_begin_and_end_with_their_parts(a: Seq<char>, b: Seq<char>, t: Seq<char>)
    ensures
        begins(a + b, a),
        ends(a + b, b),
        begins(t, a) ==> a.len() <= t.len() && forall|i: int| 0 <= i < a.len() ==> t[i] == a[i],
        ends(t, b) ==> b.len() <= t.len() && forall|i: int|
            0 <= i < b.len() ==> #[trigger] b[i] == t[t.len() - b.len() + i],
{
    assert((a + b).take(a.len() as int) =~= a);
    assert((a + b).skip(a.len() as int) =~= b);
    if begins(t, a) {
        assert forall|i: int| 0 <= i < a.len() implies t[i] == a[i] by {
            assert(t.take(a.len() as int)[i] == a[i]);
        }
    }
    if ends(t, b) {
        assert forall|i: int| 0 <= i < b.len() implies #[trigger] b[i] == t[t.len() - b.len()
            + i] by {
            assert(t.skip(t.len() - b.len())[i] == b[i]);
        }
    }
}

} // verus!
