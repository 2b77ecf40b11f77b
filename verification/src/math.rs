//! Positions and rotations. Their numbers are the bit patterns of doubles.
use crate::bits;
use crate::bits::{abs, finite, negate, ONE};
use crate::json::{Json, Tree};
use vstd::prelude::*;

verus! {

/// A point or a displacement, in metres.
#[derive(Clone, Copy, PartialEq, Eq, Structural, Debug)]
pub struct Vec3 {
    pub x: u64,
    pub y: u64,
    pub z: u64,
}

/// A rotation.
#[derive(Clone, Copy, PartialEq, Eq, Structural, Debug)]
pub struct Quat {
    pub x: u64,
    pub y: u64,
    pub z: u64,
    pub w: u64,
}

/// Where something is and how it is turned.
#[derive(Clone, Copy, PartialEq, Eq, Structural, Debug)]
pub struct Pose {
    pub time_ns: i64,
    pub position: Vec3,
    pub rotation: Quat,
}

impl Vec3 {
    pub open spec fn is_finite(self) -> bool {
        bits::is_finite(self.x) && bits::is_finite(self.y) && bits::is_finite(self.z)
    }

    /// Every component is at most 1 in magnitude.
    pub open spec fn is_within_one(self) -> bool {
        &&& bits::magnitude(self.x) <= ONE
        &&& bits::magnitude(self.y) <= ONE
        &&& bits::magnitude(self.z) <= ONE
    }

    pub fn finite(&self) -> (res: bool)
        ensures
            res == self.is_finite(),
    {
        finite(self.x) && finite(self.y) && finite(self.z)
    }

    pub fn within_one(&self) -> (res: bool)
        ensures
            res == self.is_within_one(),
    {
        abs(self.x) <= ONE && abs(self.y) <= ONE && abs(self.z) <= ONE
    }
}

/// The numbers that a document lists, if it lists so many and nothing else.
pub open spec fn listed(t: Tree, n: nat) -> Option<Seq<u64>> {
    match t.items() {
        Some(list) => if list.len() == n && forall|i: int|
            0 <= i < n ==> (#[trigger] list[i]).bits() is Some {
            Some(Seq::new(n, |i: int| list[i].bits()->0))
        } else {
            None
        },
        None => None,
    }
}

/// The vector that a document holds.
pub open spec fn vec3_in(t: Tree) -> Option<Vec3> {
    match listed(t, 3) {
        Some(n) => Some(Vec3 { x: n[0], y: n[1], z: n[2] }),
        None => None,
    }
}

/// The rotation that a document holds.
pub open spec fn quat_in(t: Tree) -> Option<Quat> {
    match listed(t, 4) {
        Some(n) => Some(Quat { x: n[0], y: n[1], z: n[2], w: n[3] }),
        None => None,
    }
}

/// The three numbers of a vector are listed as x, y and z.
pub proof fn vectors_are_listed(t: Tree)
    ensures
        vec3_in(t) matches Some(v) ==> {
            &&& t.items() matches Some(list)
            &&& list.len() == 3
            &&& list[0].bits() == Some(v.x)
            &&& list[1].bits() == Some(v.y)
            &&& list[2].bits() == Some(v.z)
        },
        vec3_in(t) is Some <==> {
            &&& t.items() matches Some(list)
            &&& list.len() == 3
            &&& list[0].bits() is Some && list[1].bits() is Some && list[2].bits() is Some
        },
{
    match t.items() {
        Some(list) => if list.len() == 3 && list[0].bits() is Some && list[1].bits() is Some
            && list[2].bits() is Some {
            assert(forall|i: int| 0 <= i < 3 ==> (#[trigger] list[i]).bits() is Some);
        },
        None => {},
    }
}

/// The four numbers of a rotation are listed as x, y, z and w.
pub proof fn rotations_are_listed(t: Tree)
    ensures
        quat_in(t) matches Some(q) ==> {
            &&& t.items() matches Some(list)
            &&& list.len() == 4
            &&& list[0].bits() == Some(q.x)
            &&& list[1].bits() == Some(q.y)
            &&& list[2].bits() == Some(q.z)
            &&& list[3].bits() == Some(q.w)
        },
        quat_in(t) is Some <==> {
            &&& t.items() matches Some(list)
            &&& list.len() == 4
            &&& list[0].bits() is Some && list[1].bits() is Some && list[2].bits() is Some
                && list[3].bits() is Some
        },
{
    match t.items() {
        Some(list) => if list.len() == 4 && list[0].bits() is Some && list[1].bits() is Some
            && list[2].bits() is Some && list[3].bits() is Some {
            assert(forall|i: int| 0 <= i < 4 ==> (#[trigger] list[i]).bits() is Some);
        },
        None => {},
    }
}

fn numbers(json: &Json, n: usize) -> (res: Option<Vec<u64>>)
    ensures
        res is Some <==> listed(json@, n as nat) is Some,
        res matches Some(list) ==> listed(json@, n as nat) == Some(list@) && list.len() == n,
{
    let items = match json.items() {
        Some(items) => items,
        None => {
            return None;
        },
    };
    let ghost trees = json@.items()->0;
    if items.len() != n {
        return None;
    }
    let mut list: Vec<u64> = Vec::new();
    while list.len() < n
        invariant
            list.len() <= n,
            items.len() == n,
            trees.len() == n,
            json@.items() == Some(trees),
            forall|i: int| 0 <= i < n ==> trees[i] == #[trigger] items@[i]@,
            forall|i: int| 0 <= i < list.len() ==> (#[trigger] trees[i]).bits() == Some(list@[i]),
        decreases n - list.len(),
    {
        let ghost k = list.len() as int;
        match items[list.len()].bits() {
            Some(bits) => {
                assert(trees[k] == items@[k]@);
                list.push(bits);
            },
            None => {
                assert(trees[k] == items@[k]@);
                return None;
            },
        }
    }
    assert(list@ =~= Seq::new(n as nat, |i: int| trees[i].bits()->0));
    Some(list)
}

/// The vector that a document holds.
pub fn vec3(json: &Json) -> (res: Option<Vec3>)
    ensures
        res == vec3_in(json@),
{
    match numbers(json, 3) {
        Some(n) => Some(Vec3 { x: n[0], y: n[1], z: n[2] }),
        None => None,
    }
}

/// The rotation that a document holds.
pub fn quat(json: &Json) -> (res: Option<Quat>)
    ensures
        res == quat_in(json@),
{
    match numbers(json, 4) {
        Some(n) => Some(Quat { x: n[0], y: n[1], z: n[2], w: n[3] }),
        None => None,
    }
}

/// The opposite of a unit rotation.
pub open spec fn conjugated(q: Quat) -> Quat {
    Quat { x: bits::negative(q.x), y: bits::negative(q.y), z: bits::negative(q.z), w: q.w }
}

/// The opposite of a unit rotation.
pub fn conjugate(q: Quat) -> (res: Quat)
    ensures
        res == conjugated(q),
{
    Quat { x: negate(q.x), y: negate(q.y), z: negate(q.z), w: q.w }
}

/// The opposite of the opposite is the rotation itself.
pub proof fn conjugating_twice_gives_it_back(q: Quat)
    ensures
        conjugated(conjugated(q)) == q,
{
}

impl Quat {
    pub open spec fn is_finite(self) -> bool {
        bits::is_finite(self.x) && bits::is_finite(self.y) && bits::is_finite(self.z)
            && bits::is_finite(self.w)
    }

    pub fn finite(&self) -> (res: bool)
        ensures
            res == self.is_finite(),
    {
        finite(self.x) && finite(self.y) && finite(self.z) && finite(self.w)
    }
}

/// The opposite of a rotation turns about the same axis the other way: each of the first
/// three numbers has the other sign, and the last is the same.
pub proof fn the_opposite_turns_the_other_way(q: Quat)
    ensures
        ({
            let o = conjugated(q);
            &&& o.w == q.w
            &&& o.x != q.x && bits::magnitude(o.x) == bits::magnitude(q.x)
            &&& o.y != q.y && bits::magnitude(o.y) == bits::magnitude(q.y)
            &&& o.z != q.z && bits::magnitude(o.z) == bits::magnitude(q.z)
        }),
{
}

/// A vector is finite, or within one, exactly where each of its numbers is.
pub proof fn vectors_are_judged_by_their_numbers(v: Vec3, q: Quat)
    ensures
        v.is_finite() <==> v.x % 0x8000_0000_0000_0000 < 0x7ff0_0000_0000_0000 && v.y
            % 0x8000_0000_0000_0000 < 0x7ff0_0000_0000_0000 && v.z % 0x8000_0000_0000_0000
            < 0x7ff0_0000_0000_0000,
        v.is_within_one() <==> v.x % 0x8000_0000_0000_0000 <= 0x3ff0_0000_0000_0000 && v.y
            % 0x8000_0000_0000_0000 <= 0x3ff0_0000_0000_0000 && v.z % 0x8000_0000_0000_0000
            <= 0x3ff0_0000_0000_0000,
        q.is_finite() <==> q.x % 0x8000_0000_0000_0000 < 0x7ff0_0000_0000_0000 && q.y
            % 0x8000_0000_0000_0000 < 0x7ff0_0000_0000_0000 && q.z % 0x8000_0000_0000_0000
            < 0x7ff0_0000_0000_0000 && q.w % 0x8000_0000_0000_0000 < 0x7ff0_0000_0000_0000,
{
}

} // verus!
