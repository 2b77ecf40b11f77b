//! The query service: the tree of addresses that is served over HTTP, what a request
//! is answered with, and which of the services that were found is asked.
use crate::bits;
use crate::json::{Json, Number, Tree};
use crate::osc::{integer, texts};
use crate::text;
use crate::text::{chars_of, same, starts_with, utf8, TextMap};
use vstd::prelude::*;
use vstd::utf8::*;

verus! {

broadcast use vstd::string::group_string_axioms;

/// Where a character first stands at or after a place, or the end.
pub open spec fn place_of(t: Seq<char>, c: char, at: int) -> int
    decreases t.len() - at,
{
    if at >= t.len() || t[at] == c {
        at
    } else {
        place_of(t, c, at + 1)
    }
}

/// Where text stops beginning with a character.
pub open spec fn past(t: Seq<char>, c: char, at: int) -> int
    decreases t.len() - at,
{
    if at < t.len() && t[at] == c {
        past(t, c, at + 1)
    } else {
        at
    }
}

/// The pieces of a text between slashes, from a place on.
pub open spec fn pieces(t: Seq<char>, at: int) -> Seq<Seq<char>>
    decreases t.len() - at,
{
    let stop = place_of(t, '/', at);
    if at <= stop < t.len() {
        seq![t.subrange(at, stop)] + pieces(t, stop + 1)
    } else {
        seq![t.subrange(at, stop)]
    }
}

/// The parts of an address: what stands between its slashes, without those it begins
/// with.
pub open spec fn parts_of(address: Seq<char>) -> Seq<Seq<char>> {
    pieces(address, past(address, '/', 0))
}

proof fn places_lie_ahead(t: Seq<char>, c: char, at: int)
    requires
        0 <= at <= t.len(),
    ensures
        at <= place_of(t, c, at) <= t.len(),
    decreases t.len() - at,
{
    if at < t.len() && t[at] != c {
        places_lie_ahead(t, c, at + 1);
    }
}

/// Texts by their contents.
pub open spec fn contents(list: Seq<String>) -> Seq<Seq<char>> {
    Seq::new(list.len(), |i: int| list[i]@)
}

fn split(address: &str) -> (list: Vec<String>)
    ensures
        contents(list@) == parts_of(address@),
        list.len() > 0,
{
    let t = chars_of(address);
    let mut at: usize = 0;
    while at < t.len() && t[at] == '/'
        invariant
            at <= t.len(),
            past(t@, '/', 0) == past(t@, '/', at as int),
        decreases t.len() - at,
    {
        at += 1;
    }
    let mut list: Vec<String> = Vec::new();
    assert(contents(list@) =~= Seq::<Seq<char>>::empty());
    assert(contents(list@) + pieces(t@, at as int) =~= parts_of(address@));
    loop
        invariant_except_break
            at <= t.len(),
            t@ == address@,
            contents(list@) + pieces(t@, at as int) == parts_of(address@),
        ensures
            contents(list@) == parts_of(address@),
            list.len() > 0,
        decreases t.len() - at,
    {
        let mut stop: usize = at;
        while stop < t.len() && t[stop] != '/'
            invariant
                at <= stop <= t.len(),
                place_of(t@, '/', at as int) == place_of(t@, '/', stop as int),
            decreases t.len() - stop,
        {
            stop += 1;
        }
        let ghost was = contents(list@);
        let piece = address.substring_char(at, stop).to_owned();
        list.push(piece);
        proof {
            assert(contents(list@) =~= was.push(piece@));
            assert(was + seq![piece@] =~= contents(list@));
        }
        if stop == t.len() {
            break;
        }
        proof {
            assert(was + (seq![piece@] + pieces(t@, stop + 1)) =~= contents(list@) + pieces(
                t@,
                stop + 1,
            ));
        }
        at = stop + 1;
    }
    list
}

/// A node of the tree: its full path, the type tags of its value where it has one,
/// and what lies below it.
#[derive(Debug)]
pub struct Node {
    pub path: String,
    pub kind: Option<String>,
    pub children: Vec<(String, Node)>,
}

/// A node by its contents.
pub ghost struct Branch {
    pub path: Seq<char>,
    pub kind: Option<Seq<char>>,
    pub children: Seq<(Seq<char>, Branch)>,
}

pub open spec fn branch(node: Node) -> Branch
    decreases node,
{
    Branch {
        path: node.path@,
        kind: match node.kind {
            Some(kind) => Some(kind@),
            None => None,
        },
        children: Seq::new(
            node.children@.len(),
            |i: int|
                if 0 <= i < node.children@.len() {
                    (node.children@[i].0@, branch(node.children@[i].1))
                } else {
                    (Seq::empty(), Branch { path: Seq::empty(), kind: None, children: Seq::empty() })
                },
        ),
    }
}

impl View for Node {
    type V = Branch;

    open spec fn view(&self) -> Branch {
        branch(*self)
    }
}

/// Where a name first stands among children, or their number.
pub open spec fn child_at(children: Seq<(Seq<char>, Branch)>, name: Seq<char>, from: int) -> int
    decreases children.len() - from,
{
    if from >= children.len() || children[from].0 == name {
        from
    } else {
        child_at(children, name, from + 1)
    }
}

/// A node with nothing below it.
pub open spec fn bare(path: Seq<char>) -> Branch {
    Branch { path, kind: None, children: Seq::empty() }
}

/// The tree below a node at a path, with a value put at the parts of an address from
/// the `i`th on.
pub open spec fn planted(
    b: Branch,
    parts: Seq<Seq<char>>,
    i: int,
    path: Seq<char>,
    kind: Seq<char>,
) -> Branch
    decreases parts.len() - i,
{
    if i >= parts.len() {
        Branch { kind: Some(kind), ..b }
    } else {
        let k = child_at(b.children, parts[i], 0);
        let below = path + "/"@ + parts[i];
        let child = if k < b.children.len() {
            b.children[k].1
        } else {
            bare(below)
        };
        let grown = (parts[i], planted(child, parts, i + 1, below, kind));
        Branch {
            children: if k < b.children.len() {
                b.children.update(k, grown)
            } else {
                b.children.push(grown)
            },
            ..b
        }
    }
}

/// The tree of the first `n` addresses of a list.
pub open spec fn grown(keys: Seq<Seq<char>>, map: Map<Seq<char>, Seq<char>>, n: nat) -> Branch
    decreases n,
{
    if n == 0 {
        bare("/"@)
    } else {
        planted(
            grown(keys, map, (n - 1) as nat),
            parts_of(keys[n - 1]),
            0,
            Seq::empty(),
            map[keys[n - 1]],
        )
    }
}

proof fn children_lie_ahead(children: Seq<(Seq<char>, Branch)>, name: Seq<char>, from: int)
    requires
        0 <= from <= children.len(),
    ensures
        from <= child_at(children, name, from) <= children.len(),
        child_at(children, name, from) < children.len() ==> children[child_at(
            children,
            name,
            from,
        )].0 == name,
        forall|i: int| from <= i < child_at(children, name, from) ==> children[i].0 != name,
    decreases children.len() - from,
{
    if from < children.len() && children[from].0 != name {
        children_lie_ahead(children, name, from + 1);
    }
}

fn plant(node: Node, parts: &Vec<String>, i: usize, path: String, kind: &str) -> (res: Node)
    requires
        i <= parts.len(),
    ensures
        res@ == planted(node@, contents(parts@), i as int, path@, kind@),
    decreases parts.len() - i,
{
    let ghost b = node@;
    let ghost all = contents(parts@);
    let Node { path: own, kind: had, children } = node;
    if i == parts.len() {
        let res = Node { path: own, kind: Some(kind.to_owned()), children };
        assert(res@.children =~= b.children);
        return res;
    }
    let name = parts[i].as_str();
    assert(name@ == all[i as int]);
    let mut k: usize = 0;
    while k < children.len() && !same(&children[k].0, name)
        invariant
            k <= children.len(),
            b.children.len() == children.len(),
            forall|j: int|
                0 <= j < children.len() ==> (#[trigger] b.children[j]).0 == children@[j].0@,
            child_at(b.children, name@, 0) == child_at(b.children, name@, k as int),
        decreases children.len() - k,
    {
        k += 1;
    }
    let mut below = path;
    below.append("/");
    below.append(name);
    let mut children = children;
    if k < children.len() {
        let (key, child) = children.remove(k);
        let grown = plant(child, parts, i + 1, below, kind);
        children.insert(k, (key, grown));
        let res = Node { path: own, kind: had, children };
        proof {
            let want = planted(b, all, i as int, path@, kind@);
            assert(res@.children =~= want.children);
        }
        res
    } else {
        let fresh = Node { path: below.clone(), kind: None, children: Vec::new() };
        assert(fresh@.children =~= Seq::<(Seq<char>, Branch)>::empty());
        let grown = plant(fresh, parts, i + 1, below, kind);
        children.push((name.to_owned(), grown));
        let res = Node { path: own, kind: had, children };
        proof {
            let want = planted(b, all, i as int, path@, kind@);
            assert(res@.children =~= want.children);
        }
        res
    }
}

/// The tree of addresses that is served.
pub fn query_tree(types: &TextMap<String>) -> (tree: Node)
    requires
        types.wf(),
    ensures
        tree@ == grown(types.keys(), texts(types@), types.keys().len()),
{
    let mut tree = Node { path: "/".to_owned(), kind: None, children: Vec::new() };
    assert(tree@.children =~= Seq::<(Seq<char>, Branch)>::empty());
    let n: usize = types.len();
    let mut i: usize = 0;
    while i < n
        invariant
            types.wf(),
            i <= n,
            n == types.keys().len(),
            tree@ == grown(types.keys(), texts(types@), i as nat),
        decreases n - i,
    {
        let (address, kind) = types.entry(i);
        let parts = split(address);
        tree = plant(tree, &parts, 0, String::new(), kind);
        i += 1;
    }
    tree
}

/// What the tree below a node has at the parts of an address from the `i`th on.
pub open spec fn kind_at(b: Branch, parts: Seq<Seq<char>>, i: int) -> Option<Seq<char>>
    decreases parts.len() - i,
{
    if i >= parts.len() {
        b.kind
    } else {
        let k = child_at(b.children, parts[i], 0);
        if k < b.children.len() {
            kind_at(b.children[k].1, parts, i + 1)
        } else {
            None
        }
    }
}

proof fn first_place(children: Seq<(Seq<char>, Branch)>, name: Seq<char>, k: int)
    requires
        0 <= k <= children.len(),
        k < children.len() ==> children[k].0 == name,
        forall|i: int| 0 <= i < k ==> (#[trigger] children[i]).0 != name,
    ensures
        child_at(children, name, 0) == k,
{
    children_lie_ahead(children, name, 0);
    let at = child_at(children, name, 0);
    if at < k {
        assert(children[at].0 != name);
    } else if k < at {
        assert(children[k].0 != name);
    }
}

/// What is planted is found, and nothing else changes.
proof fn planting_is_seen(
    b: Branch,
    parts: Seq<Seq<char>>,
    path: Seq<char>,
    kind: Seq<char>,
    other: Seq<Seq<char>>,
    i: int,
)
    requires
        0 <= i <= parts.len(),
        i <= other.len(),
        parts.take(i) == other.take(i),
    ensures
        kind_at(planted(b, parts, i, path, kind), other, i) == (if other == parts {
            Some(kind)
        } else {
            kind_at(b, other, i)
        }),
    decreases parts.len() - i,
{
    let p = planted(b, parts, i, path, kind);
    if i == parts.len() {
        if i == other.len() {
            assert(parts.take(i) =~= parts);
            assert(other.take(i) =~= other);
        }
    } else if i == other.len() {
        assert(parts.len() != other.len());
    } else {
        let name = parts[i];
        children_lie_ahead(b.children, name, 0);
        let k = child_at(b.children, name, 0);
        let below = path + "/"@ + name;
        let child = if k < b.children.len() {
            b.children[k].1
        } else {
            bare(below)
        };
        children_lie_ahead(b.children, other[i], 0);
        let j = child_at(b.children, other[i], 0);
        if other[i] == name {
            assert(parts.take(i + 1) =~= parts.take(i).push(parts[i]));
            assert(other.take(i + 1) =~= other.take(i).push(other[i]));
            first_place(p.children, name, k);
            planting_is_seen(child, parts, below, kind, other, i + 1);
        } else {
            assert(other != parts);
            if j < b.children.len() {
                assert(p.children[j] == b.children[j]);
                first_place(p.children, other[i], j);
            } else {
                assert forall|n: int| 0 <= n < p.children.len() implies (#[trigger]
                p.children[n]).0 != other[i] by {
                    if n < b.children.len() && n != k {
                        assert(p.children[n] == b.children[n]);
                    }
                }
                first_place(p.children, other[i], p.children.len() as int);
            }
        }
    }
}

proof fn planted_stays(
    keys: Seq<Seq<char>>,
    map: Map<Seq<char>, Seq<char>>,
    n: nat,
    address: Seq<char>,
)
    requires
        n <= keys.len(),
        forall|i: int|
            0 <= i < keys.len() && parts_of(#[trigger] keys[i]) == parts_of(address) ==> keys[i]
                == address,
    ensures
        kind_at(grown(keys, map, n), parts_of(address), 0) == (if keys.take(n as int).contains(
            address,
        ) {
            Some(map[address])
        } else {
            None
        }),
    decreases n,
{
    if n > 0 {
        planted_stays(keys, map, (n - 1) as nat, address);
        let last = keys[n - 1];
        let b = grown(keys, map, (n - 1) as nat);
        assert(parts_of(last).take(0) =~= parts_of(address).take(0));
        planting_is_seen(b, parts_of(last), Seq::empty(), map[last], parts_of(address), 0);
        let fewer = keys.take(n - 1);
        let more = keys.take(n as int);
        assert(more =~= fewer.push(last));
        if fewer.contains(address) {
            let i = choose|i: int| 0 <= i < fewer.len() && fewer[i] == address;
            assert(more[i] == address);
        }
        if last == address {
            assert(more[n - 1] == address);
        } else if more.contains(address) {
            let i = choose|i: int| 0 <= i < more.len() && more[i] == address;
            assert(fewer[i] == address);
        }
    } else {
        assert(pieces(address, past(address, '/', 0)).len() > 0);
    }
}

/// The tree serves every address with its type tags, and nothing else, where no two
/// addresses have the same parts.
pub proof fn tree_holds_every_address(types: TextMap<String>, address: Seq<char>)
    requires
        types.wf(),
        forall|i: int|
            0 <= i < types.keys().len() && parts_of(#[trigger] types.keys()[i]) == parts_of(address)
                ==> types.keys()[i] == address,
    ensures
        kind_at(
            grown(types.keys(), texts(types@), types.keys().len()),
            parts_of(address),
            0,
        ) == (if types@.contains_key(address) {
            Some(texts(types@)[address])
        } else {
            None
        }),
{
    types.keys_are_the_domain();
    planted_stays(types.keys(), texts(types@), types.keys().len(), address);
    assert(types.keys().take(types.keys().len() as int) =~= types.keys());
}

/// A node as it is served: its path, whether its value can be written, of what types it
/// is, and what lies below it. Only the root says so where nothing does.
pub open spec fn served(b: Branch, root: bool) -> Tree
    decreases b,
{
    let access: int = if b.kind is Some {
        2
    } else {
        0
    };
    let head = seq![
        ("FULL_PATH"@, Tree::Text(b.path)),
        ("ACCESS"@, Tree::Number(integer(access))),
    ];
    let typed = match b.kind {
        Some(kind) => head.push(("TYPE"@, Tree::Text(kind))),
        None => head,
    };
    let below = Seq::new(
        b.children.len(),
        |i: int|
            if 0 <= i < b.children.len() {
                (b.children[i].0, served(b.children[i].1, false))
            } else {
                (Seq::empty(), Tree::Null)
            },
    );
    Tree::Object(
        if root || b.children.len() > 0 {
            typed.push(("CONTENTS"@, Tree::Object(below)))
        } else {
            typed
        },
    )
}

fn whole(n: i32) -> (json: Json)
    requires
        n >= 0,
    ensures
        json@ == Tree::Number(integer(n as int)),
{
    Json::Number(
        Number { signed: Some(n as i64), unsigned: Some(n as u64), bits: bits::from_integer(n) },
    )
}

impl Node {
    /// The tree below this node, which is its root, as it is served.
    pub fn document(&self) -> (json: Json)
        ensures
            json@ == served(self@, true),
    {
        self.document_at(true)
    }

    fn document_at(&self, root: bool) -> (json: Json)
        ensures
            json@ == served(self@, root),
        decreases self,
    {
        let ghost b = self@;
        let mut list: Vec<(String, Json)> = Vec::new();
        list.push(("FULL_PATH".to_owned(), Json::Text(self.path.as_str().to_owned())));
        let access = whole(
            if self.kind.is_some() {
                2
            } else {
                0
            },
        );
        list.push(("ACCESS".to_owned(), access));
        if let Some(kind) = &self.kind {
            list.push(("TYPE".to_owned(), Json::Text(kind.as_str().to_owned())));
        }
        let mut below: Vec<(String, Json)> = Vec::new();
        while below.len() < self.children.len()
            invariant
                b == self@,
                below.len() <= self.children.len(),
                b.children.len() == self.children.len(),
                forall|k: int|
                    0 <= k < below.len() ==> (#[trigger] below@[k]).0@ == b.children[k].0
                        && below@[k].1@ == served(b.children[k].1, false),
            decreases self.children.len() - below.len(),
        {
            let ghost n = below.len() as int;
            let child = &self.children[below.len()];
            assert(b.children[n] == (child.0@, child.1@));
            let one = child.1.document_at(false);
            below.push((child.0.as_str().to_owned(), one));
        }
        let ghost want = served(b, root)->Object_0;
        if root || self.children.len() > 0 {
            let contents = Json::Object(below);
            assert(contents@->Object_0 =~= want.last().1->Object_0);
            list.push(("CONTENTS".to_owned(), contents));
        }
        let json = Json::Object(list);
        proof {
            reveal_with_fuel(crate::json::tree, 2);
            let have = json@->Object_0;
            assert(have.len() == want.len());
            assert forall|i: int| 0 <= i < have.len() implies have[i] == want[i] by {}
            assert(have =~= want);
        }
        json
    }
}

/// A request has ended: it holds an empty line.
pub open spec fn is_complete(request: Seq<u8>) -> bool {
    exists|i: int| ends_at(request, i)
}

pub open spec fn ends_at(request: Seq<u8>, i: int) -> bool {
    &&& 0 <= i
    &&& i + 4 <= request.len()
    &&& request[i] == 13
    &&& request[i + 1] == 10
    &&& request[i + 2] == 13
    &&& request[i + 3] == 10
}

/// Whether more of a request has to be read, if it may.
pub open spec fn more_wanted(request: Seq<u8>) -> Option<bool> {
    if is_complete(request) {
        Some(false)
    } else if request.len() < 8192 {
        Some(true)
    } else {
        None
    }
}

/// Whether more of a request has to be read. A request that does not end is too long.
pub fn wants_more(request: &[u8]) -> (res: Option<bool>)
    ensures
        res == more_wanted(request@),
{
    let mut i: usize = 0;
    while i < request.len() && request.len() - i >= 4
        invariant
            i <= request.len(),
            forall|k: int| 0 <= k < i ==> !#[trigger] ends_at(request@, k),
        decreases request.len() - i,
    {
        if request[i] == 13 && request[i + 1] == 10 && request[i + 2] == 13 && request[i + 3]
            == 10 {
            assert(ends_at(request@, i as int));
            return Some(false);
        }
        i += 1;
    }
    assert forall|k: int| !#[trigger] ends_at(request@, k) by {}
    if request.len() < 8192 {
        Some(true)
    } else {
        None
    }
}

/// The first line of a text, without what ends it.
pub open spec fn first_line(t: Seq<char>) -> Seq<char> {
    let n = place_of(t, '\n', 0);
    if n < t.len() && n > 0 && t[n - 1] == '\r' {
        t.take(n - 1)
    } else {
        t.take(n)
    }
}

/// A text continues like this at a place.
pub open spec fn continues(t: Seq<char>, at: int, what: Seq<char>) -> bool {
    at + what.len() <= t.len() && t.subrange(at, at + what.len()) == what
}

/// Where a text first continues like this, if it does.
pub open spec fn found(t: Seq<char>, what: Seq<char>, at: int) -> Option<int>
    decreases t.len() + 1 - at,
{
    if at < 0 || at > t.len() {
        None
    } else if continues(t, at, what) {
        Some(at)
    } else {
        found(t, what, at + 1)
    }
}

/// The path that a request asks for, or nothing.
pub open spec fn asked_path(t: Seq<char>) -> Seq<char> {
    let line = first_line(t);
    if !text::begins(line, "GET "@) {
        Seq::empty()
    } else {
        match found(line.skip(4), " HTTP/"@, 0) {
            Some(n) => line.skip(4).take(n),
            None => Seq::empty(),
        }
    }
}

fn find(t: &Vec<char>, what: &Vec<char>) -> (res: Option<usize>)
    ensures
        (match res {
            Some(n) => Some(n as int),
            None => None,
        }) == found(t@, what@, 0),
        res matches Some(n) ==> n <= t.len(),
{
    let mut at: usize = 0;
    loop
        invariant
            at <= t.len(),
            found(t@, what@, 0) == found(t@, what@, at as int),
        decreases t.len() - at,
    {
        if t.len() - at >= what.len() {
            let mut k: usize = 0;
            while k < what.len() && t[at + k] == what[k]
                invariant
                    at + what.len() <= t.len(),
                    k <= what.len(),
                    forall|j: int| 0 <= j < k ==> #[trigger] t@[at + j] == what@[j],
                decreases what.len() - k,
            {
                k += 1;
            }
            if k == what.len() {
                proof {
                    let here = t@.subrange(at as int, at + what.len());
                    assert forall|j: int| 0 <= j < what.len() implies here[j] == what@[j] by {
                        assert(t@[at + j] == what@[j]);
                    }
                    assert(here =~= what@);
                }
                return Some(at);
            }
            assert(t@.subrange(at as int, at + what.len())[k as int] != what@[k as int]);
        }
        if at == t.len() {
            assert(found(t@, what@, at + 1) is None);
            return None;
        }
        at += 1;
    }
}

/// The path that a request asks for, or nothing.
pub fn request_path(request: &str) -> (path: String)
    ensures
        path@ == asked_path(request@),
{
    let t = chars_of(request);
    let mut n: usize = 0;
    while n < t.len() && t[n] != '\n'
        invariant
            n <= t.len(),
            place_of(t@, '\n', 0) == place_of(t@, '\n', n as int),
        decreases t.len() - n,
    {
        n += 1;
    }
    if n < t.len() && n > 0 && t[n - 1] == '\r' {
        n -= 1;
    }
    let line = request.substring_char(0, n);
    assert(line@ =~= first_line(request@));
    if !starts_with(line, "GET ") {
        return String::new();
    }
    proof {
        reveal_strlit("GET ");
        assert("GET "@.len() == 4);
    }
    let rest = line.substring_char(4, n);
    assert(rest@ =~= line@.skip(4));
    match find(&chars_of(rest), &chars_of(" HTTP/")) {
        Some(k) => {
            let path = rest.substring_char(0, k).to_owned();
            assert(path@ =~= rest@.take(k as int));
            path
        },
        None => String::new(),
    }
}

/// The path that the bytes of a request ask for, or nothing; none where they are no text.
pub fn requested(request: &[u8]) -> (res: Option<String>)
    ensures
        res is Some <==> valid_utf8(request@),
        res matches Some(path) ==> path@ == asked_path(decode_utf8(request@)),
{
    match utf8(request) {
        Some(text) => Some(request_path(&text)),
        None => None,
    }
}

/// How often this service announces itself, and asks another for its values.
pub const RHYTHM_NS: i64 = 2_000_000_000;

/// Whether something is due, and when it was then done last.
pub open spec fn rhythm_of(last: Option<i64>, now: i64) -> (bool, Option<i64>) {
    match last {
        Some(then) => if now - then >= RHYTHM_NS {
            (true, Some(now))
        } else {
            (false, last)
        },
        None => (true, Some(now)),
    }
}

/// Whether something is due that is done every two seconds, the first time at once; and
/// when it was then done last.
pub fn rhythm(last: Option<i64>, now: i64) -> (res: (bool, Option<i64>))
    ensures
        res == rhythm_of(last, now),
{
    match last {
        Some(then) => if now as i128 - then as i128 >= RHYTHM_NS as i128 {
            (true, Some(now))
        } else {
            (false, last)
        },
        None => (true, Some(now)),
    }
}

/// What a request is answered with.
#[derive(Clone, Copy, PartialEq, Eq, Structural, Debug)]
pub enum Reply {
    /// Where packets are received.
    HostInfo,
    /// The whole tree.
    Tree,
    /// One address with its type tags.
    Endpoint,
    /// Nothing is there.
    Unknown,
}

/// What a path is answered with.
pub open spec fn reply_to(path: Seq<char>, types: Map<Seq<char>, String>) -> Reply {
    if path == "/?HOST_INFO"@ {
        Reply::HostInfo
    } else if path == "/"@ {
        Reply::Tree
    } else if types.contains_key(path) {
        Reply::Endpoint
    } else {
        Reply::Unknown
    }
}

/// What a path is answered with, and the type tags of the address that it is.
pub fn reply<'a>(path: &str, types: &'a TextMap<String>) -> (res: (Reply, Option<&'a String>))
    requires
        types.wf(),
    ensures
        res.0 == reply_to(path@, types@),
        res.1 is Some <==> res.0 == Reply::Endpoint,
        res.1 matches Some(kind) ==> *kind == types@[path@],
{
    if same(path, "/?HOST_INFO") {
        return (Reply::HostInfo, None);
    }
    if same(path, "/") {
        return (Reply::Tree, None);
    }
    match types.get(path) {
        Some(kind) => (Reply::Endpoint, Some(kind)),
        None => (Reply::Unknown, None),
    }
}

/// The status that goes with a reply.
pub open spec fn status_of(reply: Reply) -> u16 {
    if reply == Reply::Unknown {
        404u16
    } else {
        200u16
    }
}

impl Reply {
    /// The status that goes with the reply.
    pub fn status(&self) -> (code: u16)
        ensures
            code == status_of(*self),
    {
        match self {
            Reply::Unknown => 404,
            _ => 200,
        }
    }
}

/// The first label of an instance.
pub open spec fn label_of(instance: Seq<char>) -> Seq<char> {
    instance.take(place_of(instance, '.', 0))
}

/// The first label of an instance: what the service calls itself.
pub fn label(instance: &str) -> (res: String)
    ensures
        res@ == label_of(instance@),
{
    let t = chars_of(instance);
    let mut n: usize = 0;
    while n < t.len() && t[n] != '.'
        invariant
            n <= t.len(),
            place_of(t@, '.', 0) == place_of(t@, '.', n as int),
        decreases t.len() - n,
    {
        n += 1;
    }
    let res = instance.substring_char(0, n).to_owned();
    assert(res@ =~= instance@.take(n as int));
    res
}

/// The value at an address is asked for.
pub open spec fn asks_for(address: Seq<char>, kind: Seq<char>) -> bool {
    address != "/avatar/change"@ && vstd::utf8::encode_utf8(kind).len() == 1
}

/// Whether the value at an address is asked for: it is a single one, and not the
/// change of the avatar.
pub fn is_asked(address: &str, kind: &str) -> (res: bool)
    ensures
        res == asks_for(address@, kind@),
{
    !same(address, "/avatar/change") && kind.as_bytes().len() == 1
}

/// Whether a service is one of those that are looked for, by the name it gives itself.
pub fn is_client(name: &str) -> (res: bool)
    ensures
        res == text::begins(name@, "VRChat-Client-"@),
{
    starts_with(name, "VRChat-Client-")
}

/// The service to ask: the one whose answer was that of a client, if there is exactly
/// one such.
pub fn chosen(answers: &Vec<(u16, bool)>) -> (res: Option<u16>)
    ensures
        res matches Some(port) ==> exists|i: int|
            0 <= i < answers.len() && answers@[i] == (port, true) && forall|j: int|
                0 <= j < answers.len() && j != i ==> !(#[trigger] answers@[j]).1,
        res is None ==> (forall|i: int| 0 <= i < answers.len() ==> !(#[trigger] answers@[i]).1)
            || exists|i: int, j: int|
            0 <= i < j < answers.len() && (#[trigger] answers@[i]).1 && (#[trigger] answers@[j]).1,
{
    let mut found: Option<usize> = None;
    let mut k: usize = 0;
    while k < answers.len()
        invariant
            k <= answers.len(),
            found is None ==> forall|i: int| 0 <= i < k ==> !(#[trigger] answers@[i]).1,
            found matches Some(i) ==> i < k && answers@[i as int].1 && forall|j: int|
                0 <= j < k && j != i ==> !(#[trigger] answers@[j]).1,
        decreases answers.len() - k,
    {
        if answers[k].1 {
            if let Some(i) = found {
                assert(answers@[i as int].1 && answers@[k as int].1);
                return None;
            }
            found = Some(k);
        }
        k += 1;
    }
    match found {
        Some(i) => {
            let port: u16 = answers[i].0;
            assert(answers@[i as int] == (port, true));
            Some(port)
        },
        None => None,
    }
}

/// How long a service that was found counts, in nanoseconds.
pub const CANDIDATE_NS: i64 = 10_000_000_000;

/// The ports of services that were found, each until its time is up. There are never
/// more than sixteen.
#[derive(Debug)]
pub struct Candidates {
    list: Vec<(u16, i64)>,
}

impl View for Candidates {
    type V = Map<u16, i64>;

    closed spec fn view(&self) -> Map<u16, i64> {
        expiries(self.list@)
    }
}

/// The ports of a list with the last time given for each.
pub open spec fn expiries(list: Seq<(u16, i64)>) -> Map<u16, i64>
    decreases list.len(),
{
    if list.len() == 0 {
        Map::empty()
    } else {
        expiries(list.drop_last()).insert(list.last().0, list.last().1)
    }
}

/// What counts at a time.
pub open spec fn alive(map: Map<u16, i64>, now: i64) -> Map<u16, i64> {
    Map::new(|port: u16| map.contains_key(port) && map[port] > now, |port: u16| map[port])
}

/// A port that was found again is kept until the new time, and a new one is taken in
/// while there is room.
pub open spec fn offered(map: Map<u16, i64>, port: u16, expiry: i64) -> Map<u16, i64> {
    if map.contains_key(port) || map.dom().len() < 16 {
        map.insert(port, expiry)
    } else {
        map
    }
}

/// The longest that a service of the system's own discovery counts: ten minutes.
pub const SERVICE_NS: i64 = 600_000_000_000;

/// A record of the system's own discovery. One of kind 33 names a service and its
/// port.
#[derive(Debug)]
pub struct Service {
    pub kind: u16,
    pub name: String,
    pub port: u16,
    pub ttl: u32,
}

/// A character without regard to case, of the letters from A to Z.
pub open spec fn lower(c: char) -> char {
    if 'A' <= c <= 'Z' {
        (c as u32 + 32) as char
    } else {
        c
    }
}

pub open spec fn lowered(text: Seq<char>) -> Seq<char> {
    text.map_values(|c: char| lower(c))
}

/// A text without the dots at its end.
pub open spec fn undotted(text: Seq<char>) -> Seq<char>
    decreases text.len(),
{
    if text.len() > 0 && text.last() == '.' {
        undotted(text.drop_last())
    } else {
        text
    }
}

/// Whether a name is that of a service that is looked for.
pub open spec fn names_service(name: Seq<char>) -> bool {
    &&& text::begins(lowered(name), "vrchat-client-"@)
    &&& text::ends(undotted(lowered(name)), "._oscjson._tcp.local"@)
}

/// One record is heard: a service that says goodbye is forgotten, another counts for
/// as long as it says, and at most for ten minutes.
pub open spec fn heard(map: Map<u16, i64>, record: Service, now: i64) -> Map<u16, i64> {
    if record.kind != 33 || !names_service(record.name@) {
        map
    } else if record.ttl == 0 {
        map.remove(record.port)
    } else if record.port == 0 {
        map
    } else {
        let seconds = if record.ttl < 600 {
            record.ttl as int
        } else {
            600
        };
        offered(map, record.port, (now + seconds * 1_000_000_000) as i64)
    }
}

/// The first `n` records of a list are heard.
pub open spec fn all_heard(map: Map<u16, i64>, records: Seq<Service>, n: nat, now: i64) -> Map<
    u16,
    i64,
>
    decreases n,
{
    if n == 0 {
        map
    } else {
        heard(all_heard(map, records, (n - 1) as nat, now), records[n - 1], now)
    }
}

fn lower_case(c: char) -> (res: char)
    ensures
        res == lower(c),
{
    if 'A' <= c && c <= 'Z' {
        (c as u8 + 32) as char
    } else {
        c
    }
}

/// Whether a name is that of a service that is looked for.
pub fn is_service(name: &str) -> (res: bool)
    ensures
        res == names_service(name@),
{
    let t = chars_of(name);
    let mut low: Vec<char> = Vec::new();
    let mut i: usize = 0;
    while i < t.len()
        invariant
            i <= t.len(),
            low.len() == i,
            forall|k: int| 0 <= k < i ==> low@[k] == lower(#[trigger] t@[k]),
        decreases t.len() - i,
    {
        low.push(lower_case(t[i]));
        i += 1;
    }
    assert(low@ =~= lowered(name@));
    if !text::chars_begin(&low, "vrchat-client-") {
        return false;
    }
    let ghost whole = low@;
    while low.len() > 0 && low[low.len() - 1] == '.'
        invariant
            undotted(low@) == undotted(whole),
        decreases low.len(),
    {
        low.pop();
    }
    text::chars_end(&low, "._oscjson._tcp.local")
}

/// The first `n` ports of a list are found.
pub open spec fn all_offered(map: Map<u16, i64>, ports: Seq<(u16, u32)>, n: nat, now: i64) -> Map<
    u16,
    i64,
>
    decreases n,
{
    if n == 0 {
        map
    } else {
        offered(
            all_offered(map, ports, (n - 1) as nat, now),
            ports[n - 1].0,
            (now + CANDIDATE_NS) as i64,
        )
    }
}

/// A port stands among the first `n` and its time is not up.
spec fn counts(list: Seq<(u16, i64)>, n: int, port: u16, now: i64) -> bool {
    exists|j: int| 0 <= j < n && (#[trigger] list[j]).0 == port && list[j].1 > now
}

spec fn rising(list: Seq<(u16, i64)>) -> bool {
    forall|i: int, j: int| 0 <= i < j < list.len() ==> (#[trigger] list[i]).0 < (#[trigger] list[j]).0
}

proof fn expiries_of_rising(list: Seq<(u16, i64)>)
    requires
        rising(list),
    ensures
        forall|i: int|
            0 <= i < list.len() ==> expiries(list).contains_key((#[trigger] list[i]).0)
                && expiries(list)[list[i].0] == list[i].1,
        forall|port: u16| #[trigger]
            expiries(list).contains_key(port) ==> exists|i: int|
                0 <= i < list.len() && (#[trigger] list[i]).0 == port,
        expiries(list).dom().len() == list.len(),
        expiries(list).dom().finite(),
    decreases list.len(),
{
    if list.len() > 0 {
        let rest = list.drop_last();
        let last = list.last();
        assert(rising(rest)) by {
            assert forall|i: int, j: int| 0 <= i < j < rest.len() implies (#[trigger] rest[i]).0 < (
            #[trigger] rest[j]).0 by {
                assert(list[i].0 < list[j].0);
            }
        }
        expiries_of_rising(rest);
        assert(!expiries(rest).contains_key(last.0)) by {
            if expiries(rest).contains_key(last.0) {
                let i = choose|i: int| 0 <= i < rest.len() && (#[trigger] rest[i]).0 == last.0;
                assert(list[i].0 < list[list.len() - 1].0);
            }
        }
        assert forall|i: int| 0 <= i < list.len() implies expiries(list).contains_key(
            (#[trigger] list[i]).0,
        ) && expiries(list)[list[i].0] == list[i].1 by {
            if i < rest.len() {
                assert(rest[i] == list[i]);
            }
        }
        assert forall|port: u16| #[trigger] expiries(list).contains_key(port) implies exists|i: int|
            0 <= i < list.len() && (#[trigger] list[i]).0 == port by {
            if port == last.0 {
                assert(list[list.len() - 1].0 == port);
            } else {
                assert(expiries(rest).contains_key(port));
                let i = choose|i: int| 0 <= i < rest.len() && (#[trigger] rest[i]).0 == port;
                assert(list[i].0 == port);
            }
        }
        assert(expiries(list).dom() =~= expiries(rest).dom().insert(last.0));
    }
}

/// Two lists of ports in rising order that say the same of every port.
proof fn same_expiries(list: Seq<(u16, i64)>, map: Map<u16, i64>)
    requires
        rising(list),
        forall|i: int|
            0 <= i < list.len() ==> map.contains_key((#[trigger] list[i]).0) && map[list[i].0]
                == list[i].1,
        forall|port: u16| #[trigger]
            map.contains_key(port) ==> exists|i: int|
                0 <= i < list.len() && (#[trigger] list[i]).0 == port,
    ensures
        expiries(list) == map,
{
    expiries_of_rising(list);
    assert forall|port: u16| expiries(list).contains_key(port) <==> map.contains_key(port) by {
        if expiries(list).contains_key(port) {
            let i = choose|i: int| 0 <= i < list.len() && (#[trigger] list[i]).0 == port;
            assert(map.contains_key(list[i].0));
        }
        if map.contains_key(port) {
            let i = choose|i: int| 0 <= i < list.len() && (#[trigger] list[i]).0 == port;
            assert(expiries(list).contains_key(list[i].0));
        }
    }
    assert forall|port: u16| expiries(list).contains_key(port) implies expiries(list)[port]
        == map[port] by {
        let i = choose|i: int| 0 <= i < list.len() && (#[trigger] list[i]).0 == port;
        assert(expiries(list)[list[i].0] == list[i].1);
    }
    assert(expiries(list) =~= map);
}

impl Candidates {
    pub closed spec fn wf(&self) -> bool {
        rising(self.list@) && self.list@.len() <= 16
    }

    pub fn new() -> (c: Candidates)
        ensures
            c.wf(),
            c@ == Map::<u16, i64>::empty(),
    {
        Candidates { list: Vec::new() }
    }

    /// There are never more than sixteen.
    pub proof fn are_few(&self)
        requires
            self.wf(),
        ensures
            self@.dom().finite(),
            self@.dom().len() <= 16,
    {
        expiries_of_rising(self.list@);
    }

    fn expire(&mut self, now: i64)
        requires
            old(self).wf(),
        ensures
            final(self).wf(),
            final(self)@ == alive(old(self)@, now),
    {
        let mut kept: Vec<(u16, i64)> = Vec::new();
        let mut i: usize = 0;
        while i < self.list.len()
            invariant
                i <= self.list.len() <= 16,
                kept.len() <= i,
                rising(self.list@),
                rising(kept@),
                forall|k: int|
                    0 <= k < kept.len() ==> exists|j: int|
                        0 <= j < i && self.list@[j] == #[trigger] kept@[k] && kept@[k].1 > now,
                forall|j: int|
                    0 <= j < i && (#[trigger] self.list@[j]).1 > now ==> kept@.contains(
                        self.list@[j],
                    ),
            decreases self.list.len() - i,
        {
            let ghost was = kept@;
            if self.list[i].1 > now {
                let item: (u16, i64) = self.list[i];
                kept.push(item);
                proof {
                    assert(kept@[was.len() as int] == item);
                    assert forall|j: int|
                        0 <= j < i + 1 && (#[trigger] self.list@[j]).1
                            > now implies kept@.contains(self.list@[j]) by {
                        if j < i {
                            let k = choose|k: int|
                                0 <= k < was.len() && was[k] == self.list@[j];
                            assert(kept@[k] == self.list@[j]);
                        }
                    }
                    assert forall|k: int| 0 <= k < kept.len() implies exists|j: int|
                        0 <= j < i + 1 && self.list@[j] == #[trigger] kept@[k] && kept@[k].1
                            > now by {
                        if k < was.len() {
                            assert(kept@[k] == was[k]);
                            let j = choose|j: int|
                                0 <= j < i && self.list@[j] == was[k] && was[k].1 > now;
                            assert(self.list@[j] == kept@[k]);
                        } else {
                            assert(self.list@[i as int] == kept@[k]);
                        }
                    }
                    assert forall|a: int, b: int| 0 <= a < b < kept.len() implies (#[trigger]
                    kept@[a]).0 < (#[trigger] kept@[b]).0 by {
                        if b == was.len() {
                            let j = choose|j: int|
                                0 <= j < i && self.list@[j] == was[a] && was[a].1 > now;
                            assert(kept@[a] == was[a]);
                            assert(self.list@[j].0 < self.list@[i as int].0);
                        } else {
                            assert(was[a].0 < was[b].0);
                        }
                    }
                }
            }
            i += 1;
        }
        proof {
            expiries_of_rising(self.list@);
            let map = alive(self@, now);
            assert forall|k: int| 0 <= k < kept.len() implies map.contains_key(
                (#[trigger] kept@[k]).0,
            ) && map[kept@[k].0] == kept@[k].1 by {
                let j = choose|j: int|
                    0 <= j < self.list@.len() && self.list@[j] == kept@[k] && kept@[k].1 > now;
                assert(self@[self.list@[j].0] == self.list@[j].1);
            }
            assert forall|port: u16| #[trigger] map.contains_key(port) implies exists|k: int|
                0 <= k < kept.len() && (#[trigger] kept@[k]).0 == port by {
                let j = choose|j: int|
                    0 <= j < self.list@.len() && (#[trigger] self.list@[j]).0 == port;
                assert(self@[self.list@[j].0] == self.list@[j].1);
                let k = choose|k: int| 0 <= k < kept.len() && kept@[k] == self.list@[j];
                assert(kept@[k].0 == port);
            }
            same_expiries(kept@, map);
        }
        self.list = kept;
    }

    fn offer(&mut self, port: u16, expiry: i64)
        requires
            old(self).wf(),
        ensures
            final(self).wf(),
            final(self)@ == offered(old(self)@, port, expiry),
    {
        let ghost was = self.list@;
        let mut i: usize = 0;
        while i < self.list.len() && self.list[i].0 < port
            invariant
                i <= self.list.len(),
                forall|k: int| 0 <= k < i ==> (#[trigger] self.list@[k]).0 < port,
            decreases self.list.len() - i,
        {
            i += 1;
        }
        proof {
            expiries_of_rising(was);
        }
        if i < self.list.len() && self.list[i].0 == port {
            self.list.set(i, (port, expiry));
            proof {
                assert(was[i as int].0 == port);
                let now_list = self.list@;
                let map = expiries(was).insert(port, expiry);
                assert forall|p: u16| #[trigger] map.contains_key(p) implies exists|k: int|
                    0 <= k < now_list.len() && (#[trigger] now_list[k]).0 == p by {
                    if p == port {
                        assert(now_list[i as int].0 == p);
                    } else {
                        assert(expiries(was).contains_key(p));
                        let k = choose|k: int| 0 <= k < was.len() && (#[trigger] was[k]).0 == p;
                        assert(now_list[k].0 == p);
                    }
                }
                assert forall|a: int, b: int| 0 <= a < b < now_list.len() implies (#[trigger]
                now_list[a]).0 < (#[trigger] now_list[b]).0 by {
                    assert(was[a].0 < was[b].0);
                }
                assert forall|k: int| 0 <= k < now_list.len() implies map.contains_key(
                    (#[trigger] now_list[k]).0,
                ) && map[now_list[k].0] == now_list[k].1 by {
                    if k != i {
                        assert(now_list[k] == was[k]);
                        if k < i {
                            assert(was[k].0 < was[i as int].0);
                        } else {
                            assert(was[i as int].0 < was[k].0);
                        }
                    }
                }
                same_expiries(now_list, map);
            }
            return;
        }
        proof {
            assert(!expiries(was).contains_key(port)) by {
                if expiries(was).contains_key(port) {
                    let k = choose|k: int| 0 <= k < was.len() && (#[trigger] was[k]).0 == port;
                    if i < k {
                        assert(was[i as int].0 < was[k].0);
                    }
                }
            }
        }
        if self.list.len() < 16 {
            self.list.insert(i, (port, expiry));
            proof {
                let now_list = self.list@;
                let map = expiries(was).insert(port, expiry);
                assert forall|k: int| 0 <= k < now_list.len() && k != i implies now_list[k]
                    == was[if k < i {
                    k
                } else {
                    k - 1
                }] by {}
                assert forall|a: int, b: int| 0 <= a < b < now_list.len() implies (#[trigger]
                now_list[a]).0 < (#[trigger] now_list[b]).0 by {
                    if a == i {
                        assert(was[i as int].0 > port);
                        if b - 1 > i {
                            assert(was[i as int].0 < was[b - 1].0);
                        }
                    } else if b != i {
                        let p = if a < i {
                            a
                        } else {
                            a - 1
                        };
                        let q = if b < i {
                            b
                        } else {
                            b - 1
                        };
                        assert(was[p].0 < was[q].0);
                    }
                }
                assert forall|k: int| 0 <= k < now_list.len() implies map.contains_key(
                    (#[trigger] now_list[k]).0,
                ) && map[now_list[k].0] == now_list[k].1 by {
                    if k < i {
                        assert(expiries(was).contains_key(was[k].0));
                        assert(was[k].0 != port);
                    } else if k > i {
                        assert(expiries(was).contains_key(was[k - 1].0));
                        assert(was[k - 1].0 != port);
                    }
                }
                assert forall|p: u16| #[trigger] map.contains_key(p) implies exists|k: int|
                    0 <= k < now_list.len() && (#[trigger] now_list[k]).0 == p by {
                    if p == port {
                        assert(now_list[i as int].0 == p);
                    } else {
                        assert(expiries(was).contains_key(p));
                        let k = choose|k: int| 0 <= k < was.len() && (#[trigger] was[k]).0 == p;
                        if k < i {
                            assert(now_list[k].0 == p);
                        } else {
                            assert(now_list[k + 1].0 == p);
                        }
                    }
                }
                same_expiries(now_list, map);
            }
        }
    }

    /// Takes in the ports that a packet offers. Those whose time is up make room
    /// first.
    pub fn found(&mut self, ports: &Vec<(u16, u32)>, now: i64)
        requires
            old(self).wf(),
            now <= i64::MAX - CANDIDATE_NS,
        ensures
            final(self).wf(),
            final(self)@ == all_offered(alive(old(self)@, now), ports@, ports@.len(), now),
    {
        self.expire(now);
        let ghost start = self@;
        let mut i: usize = 0;
        while i < ports.len()
            invariant
                self.wf(),
                i <= ports.len(),
                now <= i64::MAX - CANDIDATE_NS,
                self@ == all_offered(start, ports@, i as nat, now),
            decreases ports.len() - i,
        {
            self.offer(ports[i].0, now + CANDIDATE_NS);
            i += 1;
        }
    }

    fn withdraw(&mut self, port: u16)
        requires
            old(self).wf(),
        ensures
            final(self).wf(),
            final(self)@ == old(self)@.remove(port),
    {
        let ghost was = self.list@;
        let mut i: usize = 0;
        while i < self.list.len() && self.list[i].0 != port
            invariant
                i <= self.list.len(),
                self.list@ == was,
                forall|k: int| 0 <= k < i ==> (#[trigger] was[k]).0 != port,
            decreases self.list.len() - i,
        {
            i += 1;
        }
        proof {
            expiries_of_rising(was);
        }
        if i == self.list.len() {
            proof {
                assert(!expiries(was).contains_key(port));
                assert(expiries(was).remove(port) =~= expiries(was));
            }
            return;
        }
        self.list.remove(i);
        proof {
            let left = self.list@;
            let map = expiries(was).remove(port);
            assert forall|k: int| 0 <= k < left.len() implies left[k] == was[if k < i {
                k
            } else {
                k + 1
            }] by {}
            assert forall|a: int, b: int| 0 <= a < b < left.len() implies (#[trigger] left[a]).0
                < (#[trigger] left[b]).0 by {
                let p = if a < i {
                    a
                } else {
                    a + 1
                };
                let q = if b < i {
                    b
                } else {
                    b + 1
                };
                assert(was[p].0 < was[q].0);
            }
            assert forall|k: int| 0 <= k < left.len() implies map.contains_key(
                (#[trigger] left[k]).0,
            ) && map[left[k].0] == left[k].1 by {
                let p = if k < i {
                    k
                } else {
                    k + 1
                };
                assert(expiries(was).contains_key(was[p].0));
                if p < i {
                    assert(was[p].0 < was[i as int].0);
                } else {
                    assert(was[i as int].0 < was[p].0);
                }
            }
            assert forall|p: u16| #[trigger] map.contains_key(p) implies exists|k: int|
                0 <= k < left.len() && (#[trigger] left[k]).0 == p by {
                let k = choose|k: int| 0 <= k < was.len() && (#[trigger] was[k]).0 == p;
                if k < i {
                    assert(left[k].0 == p);
                } else {
                    assert(left[k - 1].0 == p);
                }
            }
            same_expiries(left, map);
        }
    }

    /// Takes in the records of one report of the system's own discovery. Those whose
    /// time is up make room first; no more than 512 records are looked at.
    pub fn reported(&mut self, records: &Vec<Service>, now: i64)
        requires
            old(self).wf(),
            now <= i64::MAX - SERVICE_NS,
        ensures
            final(self).wf(),
            final(self)@ == all_heard(
                alive(old(self)@, now),
                records@,
                (if records@.len() < 512 {
                    records@.len()
                } else {
                    512
                }) as nat,
                now,
            ),
    {
        self.expire(now);
        let ghost start = self@;
        let mut i: usize = 0;
        while i < records.len() && i < 512
            invariant
                self.wf(),
                i <= records.len(),
                i <= 512,
                now <= i64::MAX - SERVICE_NS,
                self@ == all_heard(start, records@, i as nat, now),
            decreases records.len() - i,
        {
            let record = &records[i];
            if record.kind == 33 && is_service(record.name.as_str()) {
                if record.ttl == 0 {
                    self.withdraw(record.port);
                } else if record.port > 0 {
                    let seconds: u32 = if record.ttl < 600 {
                        record.ttl
                    } else {
                        600
                    };
                    self.offer(record.port, now + seconds as i64 * 1_000_000_000);
                }
            }
            i += 1;
        }
    }

    /// The ports that count at a time, in rising order.
    pub fn live(&self, now: i64) -> (ports: Vec<u16>)
        requires
            self.wf(),
        ensures
            forall|port: u16| ports@.contains(port) <==> alive(self@, now).contains_key(port),
            forall|i: int, j: int| 0 <= i < j < ports.len() ==> ports@[i] < ports@[j],
    {
        let mut ports: Vec<u16> = Vec::new();
        let mut i: usize = 0;
        while i < self.list.len()
            invariant
                self.wf(),
                i <= self.list.len(),
                forall|k: int|
                    0 <= k < ports.len() ==> counts(self.list@, i as int, #[trigger] ports@[k], now),
                forall|j: int|
                    0 <= j < i && (#[trigger] self.list@[j]).1 > now ==> ports@.contains(
                        self.list@[j].0,
                    ),
                forall|a: int, b: int| 0 <= a < b < ports.len() ==> ports@[a] < ports@[b],
            decreases self.list.len() - i,
        {
            let ghost was = ports@;
            if self.list[i].1 > now {
                let port: u16 = self.list[i].0;
                ports.push(port);
                proof {
                    assert(ports@[was.len() as int] == port);
                    assert forall|j: int|
                        0 <= j < i + 1 && (#[trigger] self.list@[j]).1
                            > now implies ports@.contains(self.list@[j].0) by {
                        if j < i {
                            let k = choose|k: int| 0 <= k < was.len() && was[k] == self.list@[j].0;
                            assert(ports@[k] == self.list@[j].0);
                        }
                    }
                    assert forall|k: int| 0 <= k < ports.len() implies counts(
                        self.list@,
                        i + 1,
                        #[trigger] ports@[k],
                        now,
                    ) by {
                        if k < was.len() {
                            assert(counts(self.list@, i as int, was[k], now));
                        } else {
                            assert(self.list@[i as int].0 == ports@[k]);
                        }
                    }
                    assert forall|a: int, b: int| 0 <= a < b < ports.len() implies ports@[a]
                        < ports@[b] by {
                        if b == was.len() {
                            let j = choose|j: int|
                                0 <= j < i && (#[trigger] self.list@[j]).0 == was[a]
                                    && self.list@[j].1 > now;
                            assert(self.list@[j].0 < self.list@[i as int].0);
                        } else {
                            assert(was[a] < was[b]);
                        }
                    }
                }
            }
            i += 1;
        }
        proof {
            expiries_of_rising(self.list@);
            assert forall|port: u16| ports@.contains(port) <==> alive(self@, now).contains_key(
                port,
            ) by {
                if ports@.contains(port) {
                    let k = choose|k: int| 0 <= k < ports.len() && ports@[k] == port;
                    let j = choose|j: int|
                        0 <= j < self.list@.len() && (#[trigger] self.list@[j]).0 == ports@[k]
                            && self.list@[j].1 > now;
                    assert(self@[self.list@[j].0] == self.list@[j].1);
                }
                if alive(self@, now).contains_key(port) {
                    let j = choose|j: int|
                        0 <= j < self.list@.len() && (#[trigger] self.list@[j]).0 == port;
                    assert(self@[self.list@[j].0] == self.list@[j].1);
                    assert(ports@.contains(self.list@[j].0));
                }
            }
        }
        ports
    }
}

/// Texts one behind the other, with a slash between them.
pub open spec fn joined(list: Seq<Seq<char>>) -> Seq<char>
    decreases list.len(),
{
    if list.len() == 0 {
        Seq::empty()
    } else if list.len() == 1 {
        list[0]
    } else {
        list[0] + seq!['/'] + joined(list.drop_first())
    }
}

/// The parts of an address hold no slash, and with slashes between them they are the address
/// again, but for the slashes that it begins with.
pub proof fn parts_make_the_address(address: Seq<char>)
    ensures
        forall|i: int| 0 <= i < parts_of(address).len() ==> !(#[trigger] parts_of(
            address,
        )[i]).contains('/'),
        exists|n: int|
            {
                &&& 0 <= n <= address.len()
                &&& forall|k: int| 0 <= k < n ==> address[k] == '/'
                &&& n < address.len() ==> address[n] != '/'
                &&& #[trigger] address.skip(n) == joined(parts_of(address))
            },
{
    slashes_are_past(address, 0);
    let n = past(address, '/', 0);
    pieces_make_the_text(address, n);
    assert(address.skip(n) =~= address.subrange(n, address.len() as int));
}

proof fn slashes_are_past(t: Seq<char>, at: int)
    requires
        0 <= at <= t.len(),
    ensures
        at <= past(t, '/', at) <= t.len(),
        forall|k: int| at <= k < past(t, '/', at) ==> t[k] == '/',
        past(t, '/', at) < t.len() ==> t[past(t, '/', at)] != '/',
    decreases t.len() - at,
{
    if at < t.len() && t[at] == '/' {
        slashes_are_past(t, at + 1);
    }
}

proof fn places_are_first(t: Seq<char>, c: char, at: int)
    requires
        0 <= at <= t.len(),
    ensures
        at <= place_of(t, c, at) <= t.len(),
        forall|k: int| at <= k < place_of(t, c, at) ==> t[k] != c,
        place_of(t, c, at) < t.len() ==> t[place_of(t, c, at)] == c,
    decreases t.len() - at,
{
    if at < t.len() && t[at] != c {
        places_are_first(t, c, at + 1);
    }
}

proof fn pieces_make_the_text(t: Seq<char>, at: int)
    requires
        0 <= at <= t.len(),
    ensures
        pieces(t, at).len() > 0,
        forall|i: int| 0 <= i < pieces(t, at).len() ==> !(#[trigger] pieces(t, at)[i]).contains('/'),
        joined(pieces(t, at)) == t.subrange(at, t.len() as int),
    decreases t.len() - at,
{
    places_are_first(t, '/', at);
    let stop = place_of(t, '/', at);
    let first = t.subrange(at, stop);
    assert(!first.contains('/'));
    if stop < t.len() {
        pieces_make_the_text(t, stop + 1);
        let rest = pieces(t, stop + 1);
        let all = pieces(t, at);
        assert(all == seq![first] + rest);
        assert(all.drop_first() =~= rest);
        assert(all[0] == first);
        assert forall|i: int| 0 <= i < all.len() implies !(#[trigger] all[i]).contains('/') by {
            if i > 0 {
                assert(all[i] == rest[i - 1]);
            }
        }
        assert(joined(all) =~= t.subrange(at, t.len() as int));
    } else {
        assert(pieces(t, at) =~= seq![first]);
        assert(joined(pieces(t, at)) == first);
    }
}

/// Every node below one has that one's path, a slash and its own name for its path.
pub open spec fn has_paths(b: Branch, path: Seq<char>) -> bool
    decreases b,
{
    forall|i: int|
        #![trigger b.children[i]]
        if 0 <= i < b.children.len() {
            &&& b.children[i].1.path == path + "/"@ + b.children[i].0
            &&& has_paths(b.children[i].1, path + "/"@ + b.children[i].0)
        } else {
            true
        }
}

/// The nodes of the tree have the paths at which they are found. The root's is a slash.
pub proof fn nodes_have_their_paths(keys: Seq<Seq<char>>, map: Map<Seq<char>, Seq<char>>, n: nat)
    ensures
        grown(keys, map, n).path == "/"@,
        has_paths(grown(keys, map, n), Seq::empty()),
    decreases n,
{
    if n > 0 {
        nodes_have_their_paths(keys, map, (n - 1) as nat);
        planting_keeps_paths(
            grown(keys, map, (n - 1) as nat),
            parts_of(keys[n - 1]),
            0,
            Seq::empty(),
            map[keys[n - 1]],
        );
    }
}

proof fn planting_keeps_paths(
    b: Branch,
    parts: Seq<Seq<char>>,
    i: int,
    path: Seq<char>,
    kind: Seq<char>,
)
    requires
        has_paths(b, path),
        0 <= i,
    ensures
        has_paths(planted(b, parts, i, path, kind), path),
        planted(b, parts, i, path, kind).path == b.path,
    decreases parts.len() - i,
{
    if i < parts.len() {
        children_lie_ahead(b.children, parts[i], 0);
        let k = child_at(b.children, parts[i], 0);
        let below = path + "/"@ + parts[i];
        let child = if k < b.children.len() {
            b.children[k].1
        } else {
            bare(below)
        };
        assert(has_paths(child, below)) by {
            if k < b.children.len() {
                assert(b.children[k].0 == parts[i]);
            }
        }
        planting_keeps_paths(child, parts, i + 1, below, kind);
        let res = planted(b, parts, i, path, kind);
        assert forall|j: int|
            #![trigger res.children[j]]
            if 0 <= j < res.children.len() {
                &&& res.children[j].1.path == path + "/"@ + res.children[j].0
                &&& has_paths(res.children[j].1, path + "/"@ + res.children[j].0)
            } else {
                true
            } by {
            if 0 <= j < b.children.len() && j != k {
                assert(res.children[j] == b.children[j]);
            }
        }
    }
}

/// A node is served with its path, and with the types of its value where it has one: such a
/// value can only be written. What lies below is served under its names; only the root says
/// so where nothing does.
pub proof fn nodes_are_served_as_they_are(b: Branch, root: bool, i: int)
    ensures
        ({
            let t = served(b, root);
            &&& t.text_at("FULL_PATH"@) == Some(b.path)
            &&& t.text_at("TYPE"@) == b.kind
            &&& t.signed_at("ACCESS"@) == Some(
                if b.kind is Some {
                    2i64
                } else {
                    0i64
                },
            )
            &&& t.get("CONTENTS"@) is Some <==> root || b.children.len() > 0
            &&& 0 <= i < b.children.len() ==> (t.get("CONTENTS"@) matches Some(c)
                && c is Object && c->Object_0.len() == b.children.len() && c->Object_0[i].0
                == b.children[i].0 && c->Object_0[i].1.text_at("FULL_PATH"@) == Some(
                b.children[i].1.path,
            ))
        }),
{
    assert("FULL_PATH"@ != "ACCESS"@ && "FULL_PATH"@ != "TYPE"@ && "FULL_PATH"@ != "CONTENTS"@
        && "ACCESS"@ != "TYPE"@ && "ACCESS"@ != "CONTENTS"@ && "TYPE"@ != "CONTENTS"@) by {
        reveal_strlit("FULL_PATH");
        reveal_strlit("ACCESS");
        reveal_strlit("TYPE");
        reveal_strlit("CONTENTS");
        assert("FULL_PATH"@.len() == 9 && "ACCESS"@.len() == 6 && "TYPE"@.len() == 4
            && "CONTENTS"@.len() == 8);
    }
    members_of_node(b, root);
    if 0 <= i < b.children.len() {
        members_of_node(b.children[i].1, false);
    }
}

proof fn members_of_node(b: Branch, root: bool)
    requires
        "FULL_PATH"@ != "ACCESS"@,
        "FULL_PATH"@ != "TYPE"@,
        "FULL_PATH"@ != "CONTENTS"@,
        "ACCESS"@ != "TYPE"@,
        "ACCESS"@ != "CONTENTS"@,
        "TYPE"@ != "CONTENTS"@,
    ensures
        ({
            let t = served(b, root);
            &&& t.text_at("FULL_PATH"@) == Some(b.path)
            &&& t.text_at("TYPE"@) == b.kind
            &&& t.signed_at("ACCESS"@) == Some(
                if b.kind is Some {
                    2i64
                } else {
                    0i64
                },
            )
            &&& t.get("CONTENTS"@) is Some <==> root || b.children.len() > 0
            &&& t.get("CONTENTS"@) matches Some(c) ==> (c is Object && c->Object_0.len()
                == b.children.len() && forall|i: int|
                0 <= i < b.children.len() ==> #[trigger] c->Object_0[i] == (
                    b.children[i].0,
                    served(b.children[i].1, false),
                ))
        }),
{
    let t = served(b, root);
    let m = t->Object_0;
    let n = m.len() as int;
    assert(m[0].0 == "FULL_PATH"@ && m[1].0 == "ACCESS"@);
    crate::json::members_are_found_by_their_keys(m, "FULL_PATH"@, 0);
    crate::json::members_are_found_by_their_keys(m, "ACCESS"@, 1);
    crate::json::members_are_found_by_their_keys(m, "TYPE"@, 2);
    crate::json::members_are_found_by_their_keys(m, "CONTENTS"@, n - 1);
    assert(t == Tree::Object(m));
}

/// A service counts exactly until its time is up, and what still counts keeps its time.
pub proof fn services_count_until_their_time(map: Map<u16, i64>, now: i64, port: u16)
    ensures
        alive(map, now).contains_key(port) <==> map.contains_key(port) && map[port] > now,
        alive(map, now).contains_key(port) ==> alive(map, now)[port] == map[port],
{
}

/// Services that a packet offers count for ten seconds from now, all of them where there is
/// room for sixteen; those it does not offer keep their time.
pub proof fn offers_count_for_ten_seconds(
    map: Map<u16, i64>,
    ports: Seq<(u16, u32)>,
    n: nat,
    now: i64,
    port: u16,
)
    requires
        map.dom().finite(),
        n <= ports.len(),
        now <= i64::MAX - 10_000_000_000,
    ensures
        ({
            let all = all_offered(map, ports, n, now);
            let named = exists|i: int| 0 <= i < n && (#[trigger] ports[i]).0 == port;
            &&& all.dom().finite() && all.dom().len() <= map.dom().len() + n
            &&& named && all.contains_key(port) ==> all[port] == now + 10_000_000_000
            &&& named && (map.contains_key(port) || map.dom().len() + n <= 16) ==> all.contains_key(
                port,
            )
            &&& !named ==> all.contains_key(port) == map.contains_key(port)
            &&& !named && map.contains_key(port) ==> all[port] == map[port]
        }),
    decreases n,
{
    if n > 0 {
        let m = (n - 1) as nat;
        offers_count_for_ten_seconds(map, ports, m, now, port);
        offers_count_for_ten_seconds(map, ports, m, now, ports[n - 1].0);
        let was = all_offered(map, ports, m, now);
        let last = ports[n - 1].0;
        assert(was.insert(last, (now + CANDIDATE_NS) as i64).dom() =~= was.dom().insert(last));
        if port == last {
            assert(ports[n - 1].0 == port);
        }
        if exists|i: int| 0 <= i < n && (#[trigger] ports[i]).0 == port {
            let i = choose|i: int| 0 <= i < n && (#[trigger] ports[i]).0 == port;
            if i < m {
                assert(ports[i].0 == port);
            }
        }
    }
}

/// What one record of a report does: a place of a client's service counts for as long as it
/// says, and for ten minutes at most; a goodbye ends it; other records do nothing. Other
/// services keep their time.
pub proof fn reports_are_heard(map: Map<u16, i64>, record: Service, now: i64, other: u16)
    requires
        map.dom().finite(),
        map.dom().len() < 16,
        now <= i64::MAX - 600_000_000_000,
        other != record.port,
    ensures
        ({
            let all = heard(map, record, now);
            &&& record.kind == 33 && names_service(record.name@) && record.ttl == 0 ==> all
                == map.remove(record.port)
            &&& record.kind == 33 && names_service(record.name@) && 0 < record.ttl <= 600
                && record.port > 0 ==> all.contains_key(record.port) && all[record.port] - now
                == record.ttl * 1_000_000_000
            &&& record.kind == 33 && names_service(record.name@) && record.ttl > 600 && record.port
                > 0 ==> all.contains_key(record.port) && all[record.port] - now == 600_000_000_000
            &&& record.kind != 33 || !names_service(record.name@) ==> all == map
            &&& record.ttl > 0 && record.port == 0 ==> all == map
            &&& all.contains_key(other) <==> map.contains_key(other)
            &&& map.contains_key(other) ==> all[other] == map[other]
        }),
{
}

/// A client's service is known by its name without regard to case, with or without dots at
/// its end.
pub proof fn services_are_known_without_case(name: Seq<char>, other: Seq<char>)
    ensures
        lowered(name) == lowered(other) ==> names_service(name) == names_service(other),
        names_service(name) ==> lowered(name).len() >= 14 && lowered(name).take(14)
            == "vrchat-client-"@,
        lowered(name).len() == name.len(),
        forall|i: int| 0 <= i < name.len() ==> ({
            let c = #[trigger] name[i];
            let d = lowered(name)[i];
            &&& 'A' <= c <= 'Z' ==> d as u32 == c as u32 + 32
            &&& !('A' <= c <= 'Z') ==> d == c
        }),
        undotted(name.push('.')) == undotted(name),
        undotted(name).len() > 0 ==> undotted(name).last() != '.',
    decreases name.len(),
{
    reveal_strlit("vrchat-client-");
    assert("vrchat-client-"@.len() == 14);
    if names_service(name) {
        assert(lowered(name).take(14) =~= "vrchat-client-"@);
    }
    assert(name.push('.').drop_last() =~= name);
    if name.len() > 0 && name.last() == '.' {
        services_are_known_without_case(name.drop_last(), other);
    }
    assert forall|i: int| 0 <= i < name.len() implies ({
        let c = #[trigger] name[i];
        let d = lowered(name)[i];
        &&& 'A' <= c <= 'Z' ==> d as u32 == c as u32 + 32
        &&& !('A' <= c <= 'Z') ==> d == c
    }) by {}
}

/// What a path is answered with.
pub proof fn paths_are_answered(path: Seq<char>, types: Map<Seq<char>, String>)
    ensures
        reply_to("/?HOST_INFO"@, types) == Reply::HostInfo,
        reply_to("/"@, types) == Reply::Tree,
        path != "/?HOST_INFO"@ && path != "/"@ ==> (reply_to(path, types) == Reply::Endpoint <==>
            types.contains_key(path)),
        path != "/?HOST_INFO"@ && path != "/"@ && !types.contains_key(path) ==> reply_to(path, types)
            == Reply::Unknown,
{
    reveal_strlit("/?HOST_INFO");
    reveal_strlit("/");
    assert("/?HOST_INFO"@.len() == 11 && "/"@.len() == 1);
}

/// A request asks for what stands between its verb and its protocol in its first line,
/// whatever follows that line.
pub proof fn requests_ask_for_their_path(path: Seq<char>, version: Seq<char>, rest: Seq<char>)
    requires
        !path.contains(' '),
        !path.contains('\n'),
        !version.contains('\n'),
        !version.contains('\r'),
    ensures
        asked_path("GET "@ + path + " HTTP/"@ + version + seq!['\r', '\n'] + rest) == path,
        asked_path("GET "@ + path + " HTTP/"@ + version + seq!['\n'] + rest) == path,
{
    let line = "GET "@ + path + " HTTP/"@ + version;
    reveal_strlit("GET ");
    reveal_strlit(" HTTP/");
    assert("GET "@.len() == 4 && " HTTP/"@.len() == 6);
    assert(!line.contains('\n')) by {
        assert forall|i: int| 0 <= i < line.len() implies line[i] != '\n' by {
            if 4 <= i < 4 + path.len() {
                assert(line[i] == path[i - 4]);
            } else if i >= 10 + path.len() {
                assert(line[i] == version[i - 10 - path.len()]);
            } else if i < 4 {
                assert(line[i] == "GET "@[i]);
            } else {
                assert(line[i] == " HTTP/"@[i - 4 - path.len()]);
            }
        }
    }
    assert(line.last() != '\r') by {
        if version.len() > 0 {
            assert(line.last() == version.last());
            assert(version.contains(version.last()));
        } else {
            assert(line.last() == " HTTP/"@[5]);
        }
    }
    let a = line + seq!['\r', '\n'] + rest;
    let b = line + seq!['\n'] + rest;
    assert forall|i: int| 0 <= i < line.len() implies line[i] != '\n' by {
        assert(line.contains(line[i]));
    }
    first_place_is(a, '\n', 0, line.len() as int + 1);
    first_place_is(b, '\n', 0, line.len() as int);
    assert(first_line(a) =~= line);
    assert(b[line.len() - 1] == line.last());
    assert(first_line(b) =~= line);
    let after = line.skip(4);
    let n = path.len() as int;
    assert(line.take(4) =~= "GET "@);
    assert(text::begins(line, "GET "@));
    assert(after.subrange(n, n + 6) =~= " HTTP/"@);
    assert forall|j: int| 0 <= j < n implies !continues(after, j, " HTTP/"@) by {
        assert(after[j] == path[j]);
        assert(path.contains(path[j]));
        if continues(after, j, " HTTP/"@) {
            assert(after.subrange(j, j + 6)[0] == " HTTP/"@[0]);
        }
    }
    first_found_is(after, " HTTP/"@, 0, n);
    assert(after.take(n) =~= path);
}

proof fn first_place_is(t: Seq<char>, c: char, at: int, k: int)
    requires
        0 <= at <= k < t.len(),
        t[k] == c,
        forall|i: int| at <= i < k ==> t[i] != c,
    ensures
        place_of(t, c, at) == k,
    decreases k - at,
{
    if at < k {
        first_place_is(t, c, at + 1, k);
    }
}

proof fn first_found_is(t: Seq<char>, what: Seq<char>, at: int, k: int)
    requires
        0 <= at <= k <= t.len(),
        continues(t, k, what),
        forall|i: int| at <= i < k ==> !continues(t, i, what),
    ensures
        found(t, what, at) == Some(k),
    decreases k - at,
{
    if at < k {
        first_found_is(t, what, at + 1, k);
    }
}

/// A request has ended exactly where two line ends follow each other in it; what has not ended
/// after 8192 bytes is too long.
pub proof fn requests_end_with_an_empty_line(a: Seq<u8>, b: Seq<u8>)
    ensures
        more_wanted(a + seq![13u8, 10, 13, 10] + b) == Some(false),
        more_wanted(a) == Some(false) ==> exists|i: int|
            0 <= i && i + 4 <= a.len() && #[trigger] a.subrange(i, i + 4) == seq![13u8, 10, 13, 10],
        a.len() < 8192 ==> more_wanted(a) is Some,
        more_wanted(a) == Some(true) ==> a.len() < 8192,
        more_wanted(a) is None ==> a.len() >= 8192,
        (forall|i: int| 0 <= i < a.len() ==> a[i] != 10) ==> more_wanted(a) != Some(false),
{
    let r = a + seq![13u8, 10, 13, 10] + b;
    assert(ends_at(r, a.len() as int));
    if is_complete(a) {
        let i = choose|i: int| ends_at(a, i);
        assert(a.subrange(i, i + 4) =~= seq![13u8, 10, 13, 10]);
    }
}

/// A value is asked for unless it is the change of the avatar; only single values are.
pub proof fn single_values_are_asked_for(address: Seq<char>, kind: Seq<char>)
    ensures
        !asks_for("/avatar/change"@, kind),
        address != "/avatar/change"@ ==> (asks_for(address, kind) <==> vstd::utf8::encode_utf8(
            kind,
        ).len() == 1),
{
}

/// What is done in a rhythm is done at once the first time, and again two seconds after it
/// was done last; until then that time stands.
pub proof fn rhythms_repeat_after_two_seconds(last: i64, now: i64)
    ensures
        rhythm_of(None, now) == (true, Some(now)),
        rhythm_of(Some(last), now).0 <==> now - last >= 2_000_000_000,
        rhythm_of(Some(last), now).0 ==> rhythm_of(Some(last), now).1 == Some(now),
        !rhythm_of(Some(last), now).0 ==> rhythm_of(Some(last), now).1 == Some(last),
{
}

/// Only what is not there is answered with 404.
pub proof fn unknown_paths_are_not_found(reply: Reply)
    ensures
        status_of(reply) == 404 <==> reply is Unknown,
        status_of(reply) != 404 ==> status_of(reply) == 200,
{
}

/// The label of an instance is what stands before its first dot, or all of it.
pub proof fn labels_end_before_the_first_dot(instance: Seq<char>)
    ensures
        !label_of(instance).contains('.'),
        label_of(instance).len() <= instance.len(),
        instance.take(label_of(instance).len() as int) == label_of(instance),
        label_of(instance).len() < instance.len() ==> instance[label_of(instance).len() as int]
            == '.',
{
    places_are_first(instance, '.', 0);
    let n = place_of(instance, '.', 0);
    assert(label_of(instance).len() == n);
    assert forall|i: int| 0 <= i < n implies label_of(instance)[i] != '.' by {}
}

} // verus!
