//! The last seconds before a recording, kept in memory, and the recordings that are
//! made of them: a ring of items, the takes that are being written, and the jobs
//! that a writer is handed.
use crate::bits;
use crate::bits::{SIGN, THIRTY};
use crate::json::Json;
use crate::queue;
use crate::queue::Queue;
use crate::text::same;
use std::collections::VecDeque;
use std::sync::Arc;
use vstd::prelude::*;

verus! {

broadcast use vstd::string::group_string_axioms;

/// How many bytes the ring may hold.
pub const RING_BYTES: usize = 0x400_0000;

/// How many bytes of history behind the ring may be kept for a checkpoint.
pub const HISTORY_BYTES: usize = 0x80_0000;

/// How long a take goes on after its stop, in nanoseconds.
pub const TAIL_NS: i64 = 500_000_000;

/// The end of a take that has not been stopped.
pub const NOT_STOPPED: i64 = -1;

#[derive(Clone, Copy, PartialEq, Eq, Structural, Debug)]
pub enum Kind {
    Audio,
    Event,
    Output,
    Checkpoint,
}

/// Something that happened: when it did, what it costs to keep, and what it costs
/// to keep as a step behind a checkpoint.
#[derive(Debug)]
pub struct Item<P> {
    pub kind: Kind,
    pub retained: i64,
    pub bytes: usize,
    pub step: usize,
    pub payload: P,
}

/// When a take was stopped, and what was filmed with it.
#[derive(Debug)]
pub struct Stop {
    pub at_ns: i64,
    pub video_path: String,
}

/// How a take ends.
#[derive(Debug)]
pub enum End {
    /// The writer's queue was full.
    Overflow,
    /// The writer failed.
    Failed,
    /// The take was stopped and its tail is over.
    Stopped(Option<Stop>),
    /// The engine ends.
    Shutdown { stop: Option<Stop>, failed: bool, reason: String },
}

/// What the writer is to do.
#[derive(Debug)]
pub enum Job<P, M> {
    /// A take begins with what the ring holds, and with the last checkpoint behind it
    /// and the steps since.
    Begin {
        id: u64,
        meta: Arc<M>,
        dropped: u64,
        baseline: Option<Arc<Item<P>>>,
        steps: Vec<Arc<Item<P>>>,
        seed: Vec<Arc<Item<P>>>,
    },
    Item(u64, Arc<Item<P>>),
    Mark(u64, Arc<M>),
    End(u64, End),
}

/// A take that is being written, and when it ends if it has been stopped.
#[derive(Debug)]
pub struct Active {
    pub id: u64,
    pub end_at: i64,
    pub stop: Option<Stop>,
}

#[derive(Clone, Copy, PartialEq, Eq, Structural, Debug)]
pub enum RingError {
    /// The duration is not between 0 and 30 seconds.
    Duration,
    /// The history behind the last checkpoint is too long.
    History,
    /// A start or a stop has no time.
    Time,
}

/// The last seconds, and the takes that are being written.
#[derive(Debug)]
pub struct Ring<P> {
    origin: i64,
    horizon: i64,
    ring: VecDeque<Arc<Item<P>>>,
    ring_bytes: usize,
    baseline: Option<Arc<Item<P>>>,
    steps: Vec<Arc<Item<P>>>,
    step_bytes: usize,
    active: Vec<Active>,
    recording_id: u64,
    sequence: u64,
    dropped: u64,
    completed: u64,
}

/// A ring by its contents.
#[verifier::ext_equal]
#[verifier::reject_recursive_types(P)]
pub ghost struct Kept<P> {
    pub origin: i64,
    pub horizon: i64,
    pub items: Seq<Arc<Item<P>>>,
    pub bytes: int,
    pub baseline: Option<Arc<Item<P>>>,
    pub steps: Seq<Arc<Item<P>>>,
    pub step_bytes: int,
    pub active: Seq<Active>,
    pub recording_id: u64,
    pub sequence: u64,
    pub dropped: int,
    pub completed: u64,
}

impl<P> View for Ring<P> {
    type V = Kept<P>;

    closed spec fn view(&self) -> Kept<P> {
        Kept {
            origin: self.origin,
            horizon: self.horizon,
            items: self.ring@,
            bytes: self.ring_bytes as int,
            baseline: self.baseline,
            steps: self.steps@,
            step_bytes: self.step_bytes as int,
            active: self.active@,
            recording_id: self.recording_id,
            sequence: self.sequence,
            dropped: self.dropped as int,
            completed: self.completed,
        }
    }
}

/// `Arc::clone`: another pointer to the same value.
#[verifier::external_body]
fn share<T>(item: &Arc<T>) -> (res: Arc<T>)
    ensures
        res == *item,
{
    item.clone()
}

/// What items cost, added up.
pub open spec fn cost<P>(items: Seq<Arc<Item<P>>>) -> int
    decreases items.len(),
{
    if items.len() == 0 {
        0
    } else {
        items[0].bytes + cost(items.drop_first())
    }
}

proof fn cost_is_not_negative<P>(items: Seq<Arc<Item<P>>>)
    ensures
        cost(items) >= 0,
    decreases items.len(),
{
    if items.len() > 0 {
        cost_is_not_negative(items.drop_first());
    }
}

proof fn cost_of_push<P>(items: Seq<Arc<Item<P>>>, item: Arc<Item<P>>)
    ensures
        cost(items.push(item)) == cost(items) + item.bytes,
    decreases items.len(),
{
    if items.len() > 0 {
        assert(items.push(item).drop_first() =~= items.drop_first().push(item));
        cost_of_push(items.drop_first(), item);
    } else {
        assert(items.push(item).drop_first() =~= items);
    }
}

/// An item leaves the ring: it is older than the horizon, or the ring is too full.
pub open spec fn leaves<P>(s: Kept<P>, newest: i64) -> bool {
    s.items.len() > 0 && (s.items[0].retained < newest - s.horizon || s.bytes > RING_BYTES)
}

/// The state after an item has left: a checkpoint becomes the baseline, and what
/// follows a baseline becomes a step behind it.
pub open spec fn remembered<P>(s: Kept<P>, old: Arc<Item<P>>) -> Kept<P> {
    if old.kind == Kind::Checkpoint {
        Kept { baseline: Some(old), steps: Seq::empty(), step_bytes: 0, ..s }
    } else if s.baseline is Some && (old.kind == Kind::Event || old.kind == Kind::Output) {
        Kept { steps: s.steps.push(old), step_bytes: s.step_bytes + old.step, ..s }
    } else {
        s
    }
}

/// The history behind the baseline would be too long with this item.
pub open spec fn overlong<P>(s: Kept<P>, old: Arc<Item<P>>) -> bool {
    &&& old.kind == Kind::Event || old.kind == Kind::Output
    &&& s.baseline is Some
    &&& s.step_bytes + old.step > HISTORY_BYTES
}

/// The state after all items have left that had to, and whether the history grew too
/// long on the way. Where it did, the item is gone and its cost still counts.
pub open spec fn evicted<P>(s: Kept<P>, newest: i64) -> (Kept<P>, bool)
    decreases s.items.len(),
{
    if !leaves(s, newest) {
        (s, false)
    } else {
        let old = s.items[0];
        let rest = Kept { items: s.items.drop_first(), ..s };
        if overlong(s, old) {
            (Kept { step_bytes: s.step_bytes + old.step, ..rest }, true)
        } else {
            let next = remembered(rest, old);
            evicted(
                Kept {
                    dropped: if s.bytes > RING_BYTES {
                        s.dropped + 1
                    } else {
                        s.dropped
                    },
                    bytes: s.bytes - old.bytes,
                    ..next
                },
                newest,
            )
        }
    }
}

/// The writer's queue after an item has been sent to the first `n` takes, and the
/// takes for which there was no room.
pub open spec fn fanned<P, M>(
    waiting: Seq<(Job<P, M>, usize)>,
    limit: usize,
    closed_: bool,
    active: Seq<Active>,
    n: nat,
    item: Arc<Item<P>>,
) -> (Seq<(Job<P, M>, usize)>, Seq<u64>)
    decreases n,
{
    if n == 0 {
        (waiting, Seq::empty())
    } else {
        let (w, failed) = fanned(waiting, limit, closed_, active, (n - 1) as nat, item);
        let id = active[n - 1].id;
        if closed_ {
            (w, failed.push(id))
        } else if queue::total(w) + item.bytes <= limit {
            (w.push((Job::Item(id, item), item.bytes)), failed)
        } else {
            (w.push((Job::End(id, End::Overflow), 0)), failed.push(id))
        }
    }
}

/// The takes that are not among those that failed.
pub open spec fn spared(active: Seq<Active>, failed: Seq<u64>) -> Seq<Active> {
    active.filter(|a: Active| !failed.contains(a.id))
}

/// The takes have different numbers, none of them more than there were takes, and the
/// one that is recorded is among them and has not been stopped.
pub open spec fn has_takes(active: Seq<Active>, recording_id: u64, sequence: u64) -> bool {
    &&& forall|i: int, j: int|
        0 <= i < j < active.len() ==> (#[trigger] active[i]).id < (#[trigger] active[j]).id
    &&& forall|i: int| 0 <= i < active.len() ==> 0 < (#[trigger] active[i]).id <= sequence
    &&& recording_id != 0 ==> exists|i: int|
        0 <= i < active.len() && (#[trigger] active[i]).id == recording_id && active[i].end_at < 0
}

impl<P> Ring<P> {
    /// The takes are in order, and the count of bytes is no less than what the items
    /// cost. This holds even after the history has grown too long.
    pub closed spec fn kept(&self) -> bool {
        &&& has_takes(self.active@, self.recording_id, self.sequence)
        &&& self.ring_bytes >= cost(self.ring@)
        &&& forall|i: int| 0 <= i < self.ring@.len() ==> is_small(#[trigger] self.ring@[i])
        &&& self.baseline matches Some(b) ==> b.bytes <= usize::MAX / 4
    }

    /// The count of bytes is what the items cost, and neither it nor the history is
    /// beyond its limit.
    pub closed spec fn wf(&self) -> bool {
        &&& self.kept()
        &&& self.ring_bytes == cost(self.ring@)
        &&& self.ring_bytes <= RING_BYTES
        &&& self.step_bytes <= HISTORY_BYTES
    }

    /// A ring whose history has not grown too long can count every item and every take.
    pub proof fn whole_rings_can_count(&self, item: Arc<Item<P>>)
        requires
            self.wf(),
            is_small(item),
            self@.dropped + self@.items.len() < u64::MAX,
        ensures
            self.kept(),
            can_count(self@, item.bytes as int),
    {
    }

    /// Whether an item of so many bytes, and a take, can be counted.
    pub fn has_count(&self, bytes: usize) -> (res: bool)
        requires
            self.kept(),
        ensures
            res == can_count(self@, bytes as int),
    {
        let kept: u128 = self.ring_bytes as u128 + self.step_bytes as u128 + match &self.baseline {
            Some(b) => b.bytes as u128,
            None => 0,
        };
        let left: u128 = self.dropped as u128 + self.ring.len() as u128;
        self.ring_bytes as u128 + bytes as u128 <= usize::MAX as u128 && self.step_bytes
            <= usize::MAX - usize::MAX / 4 && kept <= usize::MAX as u128 && left < u64::MAX as u128
    }
}

/// The bytes that are kept and those of one item more can be counted, and so can the
/// items that had to leave. Only what a machine can hold stands against it.
pub open spec fn can_count<P>(s: Kept<P>, bytes: int) -> bool {
    &&& s.bytes + bytes <= usize::MAX
    &&& s.step_bytes + usize::MAX / 4 <= usize::MAX
    &&& seed_cost(s) <= usize::MAX
    &&& s.dropped + s.items.len() < u64::MAX
}

/// An item that costs no more than a quarter of the address space.
pub open spec fn is_small<P>(item: Arc<Item<P>>) -> bool {
    item.bytes <= usize::MAX / 4 && item.step <= usize::MAX / 4
}

/// The cost of an item: the length of its text, its samples, and what holds them.
pub fn item_bytes(text: usize, samples: usize, overhead: usize) -> (bytes: usize)
    requires
        text + samples * 4 + overhead <= usize::MAX,
    ensures
        bytes == text + samples * 4 + overhead,
{
    text + samples * 4 + overhead
}

/// The state after an item has come: it is the newest, and what had to leave has left.
pub open spec fn received<P>(s: Kept<P>, item: Arc<Item<P>>) -> (Kept<P>, bool) {
    evicted(
        Kept { items: s.items.push(item), bytes: s.bytes + item.bytes, ..s },
        item.retained,
    )
}

proof fn eviction_keeps_the_takes<P>(s: Kept<P>, newest: i64)
    ensures
        evicted(s, newest).0.active == s.active,
        evicted(s, newest).0.recording_id == s.recording_id,
        evicted(s, newest).0.sequence == s.sequence,
        evicted(s, newest).0.completed == s.completed,
        evicted(s, newest).0.horizon == s.horizon,
        evicted(s, newest).0.origin == s.origin,
    decreases s.items.len(),
{
    if leaves(s, newest) {
        let old = s.items[0];
        let rest = Kept { items: s.items.drop_first(), ..s };
        if !overlong(s, old) {
            let next = remembered(rest, old);
            eviction_keeps_the_takes(
                Kept {
                    dropped: if s.bytes > RING_BYTES {
                        s.dropped + 1
                    } else {
                        s.dropped
                    },
                    bytes: s.bytes - old.bytes,
                    ..next
                },
                newest,
            );
        }
    }
}

impl<P> Ring<P> {
    /// An empty ring that keeps so many seconds, which is so many nanoseconds.
    pub fn new(seconds: u64, horizon: i64, origin: i64) -> (res: Result<Ring<P>, RingError>)
        ensures
            bits::from_zero_to(seconds, THIRTY) ==> (res matches Ok(ring) && ring.wf() && ring@ == (
            Kept::<P> {
                origin,
                horizon,
                items: Seq::empty(),
                bytes: 0,
                baseline: None,
                steps: Seq::empty(),
                step_bytes: 0,
                active: Seq::empty(),
                recording_id: 0,
                sequence: 0,
                dropped: 0,
                completed: 0,
            })),
            !bits::from_zero_to(seconds, THIRTY) ==> res == Err::<Ring<P>, _>(RingError::Duration),
    {
        if !(seconds <= THIRTY || seconds == SIGN) {
            return Err(RingError::Duration);
        }
        Ok(
            Ring {
                origin,
                horizon,
                ring: VecDeque::new(),
                ring_bytes: 0,
                baseline: None,
                steps: Vec::new(),
                step_bytes: 0,
                active: Vec::new(),
                recording_id: 0,
                sequence: 0,
                dropped: 0,
                completed: 0,
            },
        )
    }

    fn receive(&mut self, item: &Arc<Item<P>>) -> (res: Result<(), RingError>)
        requires
            old(self).kept(),
            is_small(*item),
            can_count(old(self)@, item.bytes as int),
        ensures
            final(self).kept(),
            final(self)@ == received(old(self)@, *item).0,
            res is Ok <==> !received(old(self)@, *item).1,
            res matches Err(e) ==> e == RingError::History,
            res is Ok && old(self).wf() ==> final(self).wf(),
    {
        proof {
            cost_of_push(self.ring@, *item);
            eviction_keeps_the_takes(
                Kept { items: self@.items.push(*item), bytes: self@.bytes + item.bytes, ..self@ },
                item.retained,
            );
        }
        let ghost want = received(self@, *item);
        let ghost start = *self;
        self.ring_bytes = self.ring_bytes + item.bytes;
        self.ring.push_back(share(item));
        loop
            invariant_except_break
                evicted(self@, item.retained) == want,
            invariant
                self.kept(),
                self.active == start.active,
                self.recording_id == start.recording_id,
                self.sequence == start.sequence,
                start.wf() ==> self.ring_bytes == cost(self.ring@) && self.step_bytes
                    <= HISTORY_BYTES,
                self.step_bytes + usize::MAX / 4 <= usize::MAX,
                self.dropped + self.ring@.len() <= u64::MAX,
                want == received(old(self)@, *item),
            ensures
                want == (self@, false),
                start.wf() ==> self.ring_bytes <= RING_BYTES,
            decreases self.ring@.len(),
        {
            let ghost before = self@;
            let leave = if self.ring.len() == 0 {
                false
            } else {
                (self.ring[0].retained as i128) < item.retained as i128 - self.horizon as i128
                    || self.ring_bytes > RING_BYTES
            };
            if !leave {
                break;
            }
            match self.ring.pop_front() {
                Some(old_item) => {
                    assert(old_item == before.items[0]);
                    assert(self.ring@ =~= before.items.drop_first());
                    proof {
                        cost_is_not_negative(self.ring@);
                    }
                    let small: usize = old_item.bytes;
                    match old_item.kind {
                        Kind::Checkpoint => {
                            self.baseline = Some(old_item);
                            self.steps = Vec::new();
                            self.step_bytes = 0;
                        },
                        Kind::Audio => {},
                        _ => if self.baseline.is_some() {
                            if self.step_bytes > HISTORY_BYTES || old_item.step > HISTORY_BYTES
                                - self.step_bytes {
                                self.step_bytes = self.step_bytes + old_item.step;
                                return Err(RingError::History);
                            }
                            self.step_bytes = self.step_bytes + old_item.step;
                            self.steps.push(old_item);
                        },
                    }
                    if self.ring_bytes > RING_BYTES {
                        self.dropped = self.dropped + 1;
                    }
                    self.ring_bytes = self.ring_bytes - small;
                    proof {
                        let rest = Kept { items: before.items.drop_first(), ..before };
                        let next = remembered(rest, before.items[0]);
                        assert(self@ == (Kept {
                            dropped: if before.bytes > RING_BYTES {
                                before.dropped + 1
                            } else {
                                before.dropped
                            },
                            bytes: before.bytes - before.items[0].bytes,
                            ..next
                        }));
                    }
                },
                None => {
                    break;
                },
            }
        }
        Ok(())
    }
}

proof fn spared_takes(active: Seq<Active>, failed: Seq<u64>, recording_id: u64, sequence: u64)
    requires
        has_takes(active, recording_id, sequence),
    ensures
        has_takes(
            spared(active, failed),
            if failed.contains(recording_id) {
                0
            } else {
                recording_id
            },
            sequence,
        ),
        forall|i: int|
            0 <= i < spared(active, failed).len() ==> active.contains(
                #[trigger] spared(active, failed)[i],
            ) && !failed.contains(spared(active, failed)[i].id),
        forall|i: int|
            0 <= i < active.len() && !failed.contains((#[trigger] active[i]).id) ==> spared(
                active,
                failed,
            ).contains(active[i]),
    decreases active.len(),
{
    reveal(Seq::filter);
    let pred = |a: Active| !failed.contains(a.id);
    if active.len() > 0 {
        let rest = active.drop_last();
        let last = active.last();
        let fewer = spared(rest, failed);
        let all = spared(active, failed);
        assert(forall|i: int| 0 <= i < rest.len() ==> rest[i] == active[i]);
        spared_takes(rest, failed, 0, sequence);
        assert(all == if pred(last) {
            fewer.push(last)
        } else {
            fewer
        });
        assert forall|i: int| 0 <= i < all.len() implies active.contains(#[trigger] all[i])
            && !failed.contains(all[i].id) by {
            if i < fewer.len() {
                assert(fewer[i] == all[i]);
                let j = choose|j: int| 0 <= j < rest.len() && rest[j] == fewer[i];
                assert(active[j] == all[i]);
            } else {
                assert(active[active.len() - 1] == all[i]);
            }
        }
        assert forall|i: int| 0 <= i < active.len() && !failed.contains(
            (#[trigger] active[i]).id,
        ) implies all.contains(active[i]) by {
            if i < rest.len() {
                assert(rest[i] == active[i]);
                let k = choose|k: int| 0 <= k < fewer.len() && fewer[k] == rest[i];
                assert(all[k] == active[i]);
            } else {
                assert(all[fewer.len() as int] == last);
            }
        }
        assert forall|i: int, j: int| 0 <= i < j < all.len() implies (#[trigger] all[i]).id < (
        #[trigger] all[j]).id by {
            assert(all[i] == fewer[i]);
            if j < fewer.len() {
                assert(all[j] == fewer[j]);
            } else {
                let k = choose|k: int| 0 <= k < rest.len() && rest[k] == fewer[i];
                assert(active[k].id < active[active.len() - 1].id);
            }
        }
        if recording_id != 0 && !failed.contains(recording_id) {
            let i = choose|i: int|
                0 <= i < active.len() && (#[trigger] active[i]).id == recording_id
                    && active[i].end_at < 0;
            assert(all.contains(active[i]));
            let k = choose|k: int| 0 <= k < all.len() && all[k] == active[i];
            assert(all[k].id == recording_id);
        }
    }
}

fn holds_id(list: &Vec<u64>, id: u64) -> (res: bool)
    ensures
        res == list@.contains(id),
{
    let mut i: usize = 0;
    while i < list.len()
        invariant
            i <= list.len(),
            forall|k: int| 0 <= k < i ==> list@[k] != id,
        decreases list.len() - i,
    {
        if list[i] == id {
            return true;
        }
        i += 1;
    }
    false
}

impl<P> Ring<P> {
    /// Lets go of the takes with these numbers.
    fn release(&mut self, failed: &Vec<u64>)
        requires
            old(self).kept(),
        ensures
            final(self).kept(),
            old(self).wf() ==> final(self).wf(),
            final(self)@ == (Kept {
                active: spared(old(self)@.active, failed@),
                recording_id: if failed@.contains(old(self)@.recording_id) {
                    0
                } else {
                    old(self)@.recording_id
                },
                ..old(self)@
            }),
    {
        let ghost before = self.active@;
        let ghost pred = |a: Active| !failed@.contains(a.id);
        let mut all: Vec<Active> = Vec::new();
        std::mem::swap(&mut all, &mut self.active);
        let mut kept: Vec<Active> = Vec::new();
        proof {
            reveal(Seq::filter);
            spared_takes(before, failed@, self.recording_id, self.sequence);
            assert(before.take(0).filter(pred) =~= kept@);
            assert(all@ =~= before.skip(0));
        }
        let ghost mut done: int = 0;
        while all.len() > 0
            invariant
                0 <= done <= before.len(),
                all@ == before.skip(done),
                pred == (|a: Active| !failed@.contains(a.id)),
                kept@ == before.take(done).filter(pred),
            decreases all.len(),
        {
            let one = all.remove(0);
            proof {
                reveal(Seq::filter);
                assert(one == before[done]);
                assert(before.take(done + 1).drop_last() =~= before.take(done));
                assert(before.take(done + 1).last() == one);
                assert(all@ =~= before.skip(done + 1));
            }
            if !holds_id(failed, one.id) {
                kept.push(one);
            }
            proof {
                done = done + 1;
            }
        }
        proof {
            assert(before.take(done) =~= before);
        }
        self.active = kept;
        if holds_id(failed, self.recording_id) {
            self.recording_id = 0;
        }
    }

    /// Sends an item to every take that is being written, and gives those for which
    /// there is no room.
    fn fan<M>(&self, item: &Arc<Item<P>>, jobs: &mut Queue<Job<P, M>>) -> (failed: Vec<u64>)
        requires
            old(jobs).wf(),
        ensures
            final(jobs).wf(),
            final(jobs).limit() == old(jobs).limit(),
            final(jobs).is_closed() == old(jobs).is_closed(),
            (final(jobs).waiting(), failed@) == fanned(
                old(jobs).waiting(),
                old(jobs).limit(),
                old(jobs).is_closed(),
                self@.active,
                self@.active.len(),
                *item,
            ),
    {
        let mut failed: Vec<u64> = Vec::new();
        let mut i: usize = 0;
        while i < self.active.len()
            invariant
                jobs.wf(),
                jobs.limit() == old(jobs).limit(),
                jobs.is_closed() == old(jobs).is_closed(),
                i <= self.active.len(),
                (jobs.waiting(), failed@) == fanned(
                    old(jobs).waiting(),
                    old(jobs).limit(),
                    old(jobs).is_closed(),
                    self@.active,
                    i as nat,
                    *item,
                ),
            decreases self.active.len() - i,
        {
            let id: u64 = self.active[i].id;
            if !jobs.push(Job::Item(id, share(item)), item.bytes, false) {
                let _ = jobs.push(Job::End(id, End::Overflow), 0, true);
                failed.push(id);
            }
            i += 1;
        }
        failed
    }

    /// Takes an item in and sends it to every take that is being written. The takes
    /// for which the writer has no room are ended; their numbers are given.
    pub fn push<M>(&mut self, item: Arc<Item<P>>, jobs: &mut Queue<Job<P, M>>) -> (res: Result<
        Vec<u64>,
        RingError,
    >)
        requires
            old(self).kept(),
            old(jobs).wf(),
            is_small(item),
            can_count(old(self)@, item.bytes as int),
        ensures
            final(jobs).wf(),
            final(jobs).limit() == old(jobs).limit(),
            final(jobs).is_closed() == old(jobs).is_closed(),
            final(self).kept(),
            received(old(self)@, item).1 ==> res == Err::<Vec<u64>, _>(RingError::History)
                && final(self)@ == received(old(self)@, item).0 && final(jobs).waiting() == old(
                jobs,
            ).waiting(),
            !received(old(self)@, item).1 && old(self).wf() ==> final(self).wf(),
            !received(old(self)@, item).1 ==> (res matches Ok(failed) && (
                final(jobs).waiting(),
                failed@,
            ) == fanned(
                old(jobs).waiting(),
                old(jobs).limit(),
                old(jobs).is_closed(),
                old(self)@.active,
                old(self)@.active.len(),
                item,
            ) && final(self)@ == (Kept {
                active: spared(old(self)@.active, failed@),
                recording_id: if failed@.contains(old(self)@.recording_id) {
                    0
                } else {
                    old(self)@.recording_id
                },
                ..received(old(self)@, item).0
            })),
    {
        proof {
            eviction_keeps_the_takes(
                Kept { items: self@.items.push(item), bytes: self@.bytes + item.bytes, ..self@ },
                item.retained,
            );
        }
        match self.receive(&item) {
            Ok(_) => {},
            Err(e) => {
                return Err(e);
            },
        }
        let failed = self.fan(&item, jobs);
        self.release(&failed);
        Ok(failed)
    }
}

/// A job that begins a take with all that is kept.
pub open spec fn begins<P, M>(job: Job<P, M>, id: u64, s: Kept<P>, meta: Arc<M>) -> bool {
    match job {
        Job::Begin { id: number, meta: about, dropped, baseline, steps, seed } => {
            &&& number == id
            &&& about == meta
            &&& dropped == s.dropped
            &&& baseline == s.baseline
            &&& steps@ == s.steps
            &&& seed@ == s.items
        },
        _ => false,
    }
}

/// What all that is kept costs.
pub open spec fn seed_cost<P>(s: Kept<P>) -> int {
    s.bytes + s.step_bytes + match s.baseline {
        Some(b) => b.bytes as int,
        None => 0,
    }
}

/// The takes after one of them was stopped.
pub open spec fn is_stopped(
    before: Seq<Active>,
    after: Seq<Active>,
    id: u64,
    at: i64,
    origin: i64,
    video_path: Seq<char>,
) -> bool {
    &&& after.len() == before.len()
    &&& forall|i: int|
        0 <= i < before.len() ==> if (#[trigger] before[i]).id == id {
            &&& after[i].id == id
            &&& after[i].end_at == at - origin + TAIL_NS
            &&& after[i].stop matches Some(stop)
            &&& stop.at_ns == at
            &&& stop.video_path@ == video_path
        } else {
            after[i] == before[i]
        }
}

/// The writer's queue after a mark has been sent to the first `n` takes, as far as
/// there is room.
pub open spec fn marked<P, M>(
    waiting: Seq<(Job<P, M>, usize)>,
    limit: usize,
    closed_: bool,
    active: Seq<Active>,
    n: nat,
    mark: Arc<M>,
    bytes: usize,
) -> Seq<(Job<P, M>, usize)>
    decreases n,
{
    if n == 0 {
        waiting
    } else {
        let w = marked(waiting, limit, closed_, active, (n - 1) as nat, mark, bytes);
        if !closed_ && queue::total(w) + bytes <= limit {
            w.push((Job::Mark(active[n - 1].id, mark), bytes))
        } else {
            w
        }
    }
}

/// What a command asks for.
#[derive(Clone, Copy, PartialEq, Eq, Structural, Debug)]
pub enum Command {
    Start,
    Stop,
    Other,
}

/// What a command asks for.
pub open spec fn command_of(event: crate::json::Tree) -> Command {
    if event.text_at("event"@) == Some("recording_started"@) {
        Command::Start
    } else if event.text_at("event"@) == Some("recording_stopped"@) {
        Command::Stop
    } else {
        Command::Other
    }
}

fn command_in(event: &Json) -> (res: Command)
    ensures
        res == command_of(event@),
{
    match event.text_at("event") {
        Some(name) => if same(name, "recording_started") {
            Command::Start
        } else if same(name, "recording_stopped") {
            Command::Stop
        } else {
            Command::Other
        },
        None => Command::Other,
    }
}

/// What came of a command.
#[derive(Clone, Copy, PartialEq, Eq, Structural, Debug)]
pub enum Note {
    Done,
    /// The writer had no room for the take.
    Refused,
}

fn shared<T>(list: &Vec<Arc<T>>) -> (res: Vec<Arc<T>>)
    ensures
        res@ == list@,
{
    let mut res: Vec<Arc<T>> = Vec::new();
    while res.len() < list.len()
        invariant
            res.len() <= list.len(),
            res@ == list@.take(res.len() as int),
        decreases list.len() - res.len(),
    {
        let one = share(&list[res.len()]);
        let ghost was = res@;
        res.push(one);
        assert(res@ =~= list@.take(res.len() as int));
    }
    assert(res@ =~= list@);
    res
}

impl<P> Ring<P> {
    fn seed(&self) -> (res: Vec<Arc<Item<P>>>)
        ensures
            res@ == self@.items,
    {
        let mut res: Vec<Arc<Item<P>>> = Vec::new();
        while res.len() < self.ring.len()
            invariant
                res.len() <= self.ring.len(),
                res@ == self.ring@.take(res.len() as int),
            decreases self.ring.len() - res.len(),
        {
            let one = share(&self.ring[res.len()]);
            let ghost was = res@;
            res.push(one);
            assert(res@ =~= self.ring@.take(res.len() as int));
        }
        assert(res@ =~= self.ring@);
        res
    }

    fn start<M>(&mut self, meta: Arc<M>, jobs: &mut Queue<Job<P, M>>) -> (note: Note)
        requires
            old(self).kept(),
            seed_cost(old(self)@) <= usize::MAX,
            old(self)@.recording_id == 0,
            old(self)@.sequence < u64::MAX,
            old(jobs).wf(),
        ensures
            final(self).kept(),
            old(self).wf() ==> final(self).wf(),
            final(jobs).wf(),
            final(jobs).limit() == old(jobs).limit(),
            final(jobs).is_closed() == old(jobs).is_closed(),
            started(old(self)@, final(self)@, *old(jobs), *final(jobs), meta, note),
    {
        let id: u64 = self.sequence + 1;
        let cost: usize = self.ring_bytes + self.step_bytes + match &self.baseline {
            Some(b) => b.bytes,
            None => 0,
        };
        let baseline = match &self.baseline {
            Some(b) => Some(share(b)),
            None => None,
        };
        let steps = shared(&self.steps);
        let seed = self.seed();
        let dropped: u64 = self.dropped;
        self.sequence = id;
        if !jobs.push(Job::Begin { id, meta, dropped, baseline, steps, seed }, cost, false) {
            return Note::Refused;
        }
        let ghost before = self.active@;
        self.active.push(Active { id, end_at: NOT_STOPPED, stop: None });
        self.recording_id = id;
        proof {
            let after = self.active@;
            assert(jobs.waiting().drop_last() =~= old(jobs).waiting());
            assert(after[before.len() as int].id == id);
            assert forall|i: int, j: int| 0 <= i < j < after.len() implies (#[trigger] after[i]).id
                < (#[trigger] after[j]).id by {
                assert(after[i] == before[i]);
            }
        }
        Note::Done
    }
}

/// A take has begun, or the writer had no room for it. Either way its number is used
/// up.
pub open spec fn started<P, M>(
    before: Kept<P>,
    after: Kept<P>,
    jobs: Queue<Job<P, M>>,
    then: Queue<Job<P, M>>,
    meta: Arc<M>,
    note: Note,
) -> bool {
    let id = (before.sequence + 1) as u64;
    if !jobs.is_closed() && queue::total(jobs.waiting()) + seed_cost(before) <= jobs.limit() {
        &&& note == Note::Done
        &&& after == (Kept {
            sequence: id,
            recording_id: id,
            active: before.active.push(Active { id, end_at: NOT_STOPPED, stop: None }),
            ..before
        })
        &&& then.waiting().len() == jobs.waiting().len() + 1
        &&& then.waiting().drop_last() == jobs.waiting()
        &&& begins(then.waiting().last().0, id, before, meta)
        &&& then.waiting().last().1 == seed_cost(before)
    } else {
        &&& note == Note::Refused
        &&& after == (Kept { sequence: id, ..before })
        &&& then.waiting() == jobs.waiting()
    }
}

/// What a stop says was filmed.
pub open spec fn filmed(event: crate::json::Tree) -> Seq<char> {
    match event.text_at("video_path"@) {
        Some(path) => path,
        None => Seq::empty(),
    }
}

/// What a command does.
pub open spec fn commanded<P, M>(
    before: Kept<P>,
    after: Kept<P>,
    jobs: Queue<Job<P, M>>,
    then: Queue<Job<P, M>>,
    event: crate::json::Tree,
    mark: Arc<M>,
    bytes: usize,
    res: Result<Note, RingError>,
) -> bool {
    let time = event.signed_at("qpc_ns"@);
    match command_of(event) {
        Command::Start => if before.recording_id != 0 {
            &&& res == Ok::<_, RingError>(Note::Done)
            &&& after == before
            &&& then.waiting() == jobs.waiting()
        } else if time is None {
            &&& res == Err::<Note, _>(RingError::Time)
            &&& after == before
            &&& then.waiting() == jobs.waiting()
        } else {
            &&& res matches Ok(note)
            &&& started(before, after, jobs, then, mark, note)
        },
        Command::Stop => if before.recording_id == 0 {
            &&& res == Ok::<_, RingError>(Note::Done)
            &&& after == before
            &&& then.waiting() == jobs.waiting()
        } else if time is None {
            &&& res == Err::<Note, _>(RingError::Time)
            &&& after == (Kept { recording_id: 0, ..before })
            &&& then.waiting() == jobs.waiting()
        } else {
            &&& res == Ok::<_, RingError>(Note::Done)
            &&& is_stopped(
                before.active,
                after.active,
                before.recording_id,
                time->0,
                before.origin,
                filmed(event),
            )
            &&& after == (Kept { recording_id: 0, active: after.active, ..before })
            &&& then.waiting() == (if !jobs.is_closed() && queue::total(jobs.waiting()) + bytes
                <= jobs.limit() {
                jobs.waiting().push((Job::Mark(before.recording_id, mark), bytes))
            } else {
                jobs.waiting()
            })
        },
        Command::Other => {
            &&& res == Ok::<_, RingError>(Note::Done)
            &&& after == before
            &&& then.waiting() == marked(
                jobs.waiting(),
                jobs.limit(),
                jobs.is_closed(),
                before.active,
                before.active.len(),
                mark,
                bytes,
            )
        },
    }
}

impl<P> Ring<P> {
    fn stop<M>(
        &mut self,
        event: &Json,
        mark: Arc<M>,
        bytes: usize,
        jobs: &mut Queue<Job<P, M>>,
    ) -> (res: Result<Note, RingError>)
        requires
            old(self).kept(),
            old(self)@.recording_id != 0,
            old(jobs).wf(),
            command_of(event@) == Command::Stop,
            event@.signed_at("qpc_ns"@) matches Some(at) ==> i64::MIN <= at - old(self)@.origin
                + TAIL_NS <= i64::MAX && i64::MIN <= at - old(self)@.origin <= i64::MAX,
        ensures
            final(self).kept(),
            old(self).wf() ==> final(self).wf(),
            final(jobs).wf(),
            final(jobs).limit() == old(jobs).limit(),
            final(jobs).is_closed() == old(jobs).is_closed(),
            commanded(old(self)@, final(self)@, *old(jobs), *final(jobs), event@, mark, bytes, res),
    {
        let id: u64 = self.recording_id;
        let ghost before = self.active@;
        self.recording_id = 0;
        let at: i64 = match event.signed_at("qpc_ns") {
            Some(at) => at,
            None => {
                return Err(RingError::Time);
            },
        };
        let video_path = match event.text_at("video_path") {
            Some(path) => path.as_str().to_owned(),
            None => String::new(),
        };
        assert(video_path@ =~= filmed(event@));
        let end_at: i64 = at - self.origin + TAIL_NS;
        let mut k: usize = 0;
        while self.active[k].id != id
            invariant
                k < self.active.len(),
                self.active@ == before,
                exists|i: int| k <= i < before.len() && (#[trigger] before[i]).id == id,
            decreases self.active.len() - k,
        {
            k += 1;
        }
        let _ = self.active.remove(k);
        self.active.insert(k, Active { id, end_at, stop: Some(Stop { at_ns: at, video_path }) });
        proof {
            let after = self.active@;
            assert forall|i: int| 0 <= i < before.len() implies if (#[trigger] before[i]).id == id {
                &&& after[i].id == id
                &&& after[i].end_at == at - self.origin + TAIL_NS
                &&& after[i].stop matches Some(stop)
                &&& stop.at_ns == at
                &&& stop.video_path@ == filmed(event@)
            } else {
                after[i] == before[i]
            } by {
                if i < k {
                    assert(before[i].id < before[k as int].id);
                    assert(after[i] == before[i]);
                } else if i > k {
                    assert(before[k as int].id < before[i].id);
                    assert(after[i] == before[i]);
                }
            }
            assert forall|i: int, j: int| 0 <= i < j < after.len() implies (#[trigger] after[i]).id
                < (#[trigger] after[j]).id by {
                assert(before[i].id < before[j].id);
            }
            assert forall|i: int| 0 <= i < after.len() implies 0 < (#[trigger] after[i]).id
                <= self.sequence by {
                assert(before[i].id > 0);
            }
        }
        let _ = jobs.push(Job::Mark(id, mark), bytes, false);
        Ok(Note::Done)
    }

    /// Carries a command out: starts a take, stops it, or marks something in all
    /// takes. `bytes` is what the mark costs.
    pub fn command<M>(
        &mut self,
        event: &Json,
        mark: Arc<M>,
        bytes: usize,
        jobs: &mut Queue<Job<P, M>>,
    ) -> (res: Result<Note, RingError>)
        requires
            old(self).kept(),
            old(jobs).wf(),
            seed_cost(old(self)@) <= usize::MAX,
            old(self)@.sequence < u64::MAX,
            event@.signed_at("qpc_ns"@) matches Some(at) ==> i64::MIN <= at - old(self)@.origin
                + TAIL_NS <= i64::MAX && i64::MIN <= at - old(self)@.origin <= i64::MAX,
        ensures
            final(self).kept(),
            old(self).wf() ==> final(self).wf(),
            final(jobs).wf(),
            final(jobs).limit() == old(jobs).limit(),
            final(jobs).is_closed() == old(jobs).is_closed(),
            commanded(old(self)@, final(self)@, *old(jobs), *final(jobs), event@, mark, bytes, res),
    {
        match command_in(event) {
            Command::Start => {
                if self.recording_id != 0 {
                    return Ok(Note::Done);
                }
                if event.signed_at("qpc_ns").is_none() {
                    return Err(RingError::Time);
                }
                Ok(self.start(mark, jobs))
            },
            Command::Stop => {
                if self.recording_id == 0 {
                    return Ok(Note::Done);
                }
                self.stop(event, mark, bytes, jobs)
            },
            Command::Other => {
                let mut i: usize = 0;
                while i < self.active.len()
                    invariant
                        jobs.wf(),
                        jobs.limit() == old(jobs).limit(),
                        jobs.is_closed() == old(jobs).is_closed(),
                        i <= self.active.len(),
                        *self == *old(self),
                        jobs.waiting() == marked(
                            old(jobs).waiting(),
                            old(jobs).limit(),
                            old(jobs).is_closed(),
                            self@.active,
                            i as nat,
                            mark,
                            bytes,
                        ),
                    decreases self.active.len() - i,
                {
                    let _ = jobs.push(Job::Mark(self.active[i].id, share(&mark)), bytes, false);
                    i += 1;
                }
                Ok(Note::Done)
            },
        }
    }
}

/// The writer's queue after the first `n` of the takes that failed have been ended.
pub open spec fn dismissed<P, M>(
    waiting: Seq<(Job<P, M>, usize)>,
    closed_: bool,
    failures: Seq<u64>,
    n: nat,
) -> Seq<(Job<P, M>, usize)>
    decreases n,
{
    if n == 0 || closed_ {
        waiting
    } else {
        dismissed(waiting, closed_, failures, (n - 1) as nat).push(
            (Job::End(failures[n - 1], End::Failed), 0),
        )
    }
}

/// A take has been stopped and its tail is over.
pub open spec fn is_over(a: Active, at: i64) -> bool {
    a.end_at >= 0 && at >= a.end_at
}

/// The takes that go on, the jobs that end the others, and how many those are, among
/// the first `n`.
pub open spec fn settled<P, M>(
    waiting: Seq<(Job<P, M>, usize)>,
    closed_: bool,
    active: Seq<Active>,
    n: nat,
    at: i64,
) -> (Seq<Active>, Seq<(Job<P, M>, usize)>, int)
    decreases n,
{
    if n == 0 {
        (Seq::empty(), waiting, 0)
    } else {
        let (rest, jobs, ended) = settled(waiting, closed_, active, (n - 1) as nat, at);
        let a = active[n - 1];
        if !is_over(a, at) {
            (rest.push(a), jobs, ended)
        } else if closed_ {
            (rest, jobs, ended + 1)
        } else {
            (rest, jobs.push((Job::End(a.id, End::Stopped(a.stop)), 0)), ended + 1)
        }
    }
}

proof fn settled_takes<P, M>(
    waiting: Seq<(Job<P, M>, usize)>,
    closed_: bool,
    active: Seq<Active>,
    n: nat,
    at: i64,
    recording_id: u64,
    sequence: u64,
)
    requires
        n <= active.len(),
        has_takes(active, recording_id, sequence),
    ensures
        ({
            let (rest, jobs, ended) = settled(waiting, closed_, active, n, at);
            &&& 0 <= ended <= n
            &&& forall|i: int, j: int|
                0 <= i < j < rest.len() ==> (#[trigger] rest[i]).id < (#[trigger] rest[j]).id
            &&& forall|i: int| 0 <= i < rest.len() ==> 0 < (#[trigger] rest[i]).id <= sequence
            &&& forall|i: int|
                0 <= i < rest.len() ==> exists|k: int|
                    0 <= k < n && active[k] == #[trigger] rest[i]
            &&& forall|k: int|
                0 <= k < n && !is_over(#[trigger] active[k], at) ==> rest.contains(active[k])
        }),
    decreases n,
{
    if n > 0 {
        settled_takes(waiting, closed_, active, (n - 1) as nat, at, recording_id, sequence);
        let (fewer, _, _) = settled(waiting, closed_, active, (n - 1) as nat, at);
        let (rest, _, _) = settled(waiting, closed_, active, n, at);
        let a = active[n - 1];
        assert forall|i: int| 0 <= i < rest.len() implies exists|k: int|
            0 <= k < n && active[k] == #[trigger] rest[i] by {
            if i < fewer.len() {
                assert(rest[i] == fewer[i]);
                let k = choose|k: int| 0 <= k < n - 1 && active[k] == fewer[i];
                assert(active[k] == rest[i]);
            } else {
                assert(active[n - 1] == rest[i]);
            }
        }
        assert forall|i: int, j: int| 0 <= i < j < rest.len() implies (#[trigger] rest[i]).id < (
        #[trigger] rest[j]).id by {
            assert(rest[i] == fewer[i]);
            if j < fewer.len() {
                assert(rest[j] == fewer[j]);
            } else {
                let k = choose|k: int| 0 <= k < n - 1 && active[k] == fewer[i];
                assert(active[k].id < active[n - 1].id);
            }
        }
        assert forall|i: int| 0 <= i < rest.len() implies 0 < (#[trigger] rest[i]).id <= sequence by {
            if i < fewer.len() {
                assert(rest[i] == fewer[i]);
            } else {
                assert(active[n - 1].id > 0);
            }
        }
        assert forall|k: int| 0 <= k < n && !is_over(#[trigger] active[k], at) implies rest.contains(
            active[k],
        ) by {
            if k < n - 1 {
                let i = choose|i: int| 0 <= i < fewer.len() && fewer[i] == active[k];
                assert(rest[i] == active[k]);
            } else {
                assert(rest[fewer.len() as int] == a);
            }
        }
    }
}

/// A job that ends a take because the engine ends.
pub open spec fn shuts<P, M>(job: (Job<P, M>, usize), a: Active, reason: Seq<char>) -> bool {
    &&& job.1 == 0
    &&& job.0 matches Job::End(id, End::Shutdown { stop, failed, reason: why })
    &&& id == a.id
    &&& stop == a.stop
    &&& failed == (reason == "engine_error"@)
    &&& why@ == reason
}

/// What a poll does: the takes whose writing failed are ended first, and those whose tail
/// is over after them.
pub open spec fn polled<P, M>(
    before: Kept<P>,
    after: Kept<P>,
    jobs: Queue<Job<P, M>>,
    then: Queue<Job<P, M>>,
    failures: Seq<u64>,
    at: i64,
) -> bool {
    let left = spared(before.active, failures);
    let told = dismissed(jobs.waiting(), jobs.is_closed(), failures, failures.len());
    let (rest, sent, ended) = settled(told, jobs.is_closed(), left, left.len(), at);
    &&& then.waiting() == sent
    &&& after == (Kept {
        active: rest,
        recording_id: if failures.contains(before.recording_id) {
            0
        } else {
            before.recording_id
        },
        completed: (before.completed + ended) as u64,
        ..before
    })
}

impl<P> Ring<P> {
    /// Ends the takes whose writing failed, and those whose tail is over.
    pub fn poll<M>(&mut self, at: i64, failures: &Vec<u64>, jobs: &mut Queue<Job<P, M>>)
        requires
            old(self).kept(),
            old(jobs).wf(),
            old(self)@.completed + old(self)@.active.len() <= u64::MAX,
        ensures
            final(self).kept(),
            old(self).wf() ==> final(self).wf(),
            final(jobs).wf(),
            final(jobs).limit() == old(jobs).limit(),
            final(jobs).is_closed() == old(jobs).is_closed(),
            polled(old(self)@, final(self)@, *old(jobs), *final(jobs), failures@, at),
    {
        let mut i: usize = 0;
        while i < failures.len()
            invariant
                jobs.wf(),
                jobs.limit() == old(jobs).limit(),
                jobs.is_closed() == old(jobs).is_closed(),
                i <= failures.len(),
                jobs.waiting() == dismissed(
                    old(jobs).waiting(),
                    old(jobs).is_closed(),
                    failures@,
                    i as nat,
                ),
            decreases failures.len() - i,
        {
            let _ = jobs.push(Job::End(failures[i], End::Failed), 0, true);
            i += 1;
        }
        let ghost told = jobs.waiting();
        self.release(failures);
        let ghost left = self.active@;
        let ghost before = *self;
        proof {
            spared_takes(old(self)@.active, failures@, old(self)@.recording_id, self.sequence);
            reveal(Seq::filter);
            old(self)@.active.lemma_filter_len(|a: Active| !failures@.contains(a.id));
        }
        let mut all: Vec<Active> = Vec::new();
        std::mem::swap(&mut all, &mut self.active);
        let mut rest: Vec<Active> = Vec::new();
        let ghost mut done: int = 0;
        assert(all@ =~= left.skip(0));
        while all.len() > 0
            invariant
                0 <= done <= left.len(),
                all@ == left.skip(done),
                jobs.wf(),
                jobs.limit() == old(jobs).limit(),
                jobs.is_closed() == old(jobs).is_closed(),
                has_takes(left, before.recording_id, before.sequence),
                before.completed + left.len() <= u64::MAX,
                *self == (Ring {
                    active: self.active,
                    completed: (before.completed + settled(
                        told,
                        old(jobs).is_closed(),
                        left,
                        done as nat,
                        at,
                    ).2) as u64,
                    ..before
                }),
                rest@ == settled(told, old(jobs).is_closed(), left, done as nat, at).0,
                jobs.waiting() == settled(
                    told,
                    old(jobs).is_closed(),
                    left,
                    done as nat,
                    at,
                ).1,
            decreases all.len(),
        {
            let one = all.remove(0);
            proof {
                settled_takes(
                    told,
                    old(jobs).is_closed(),
                    left,
                    done as nat,
                    at,
                    before.recording_id,
                    before.sequence,
                );
                assert(one == left[done]);
                assert(all@ =~= left.skip(done + 1));
            }
            if one.end_at >= 0 && at >= one.end_at {
                let _ = jobs.push(Job::End(one.id, End::Stopped(one.stop)), 0, true);
                self.completed = self.completed + 1;
            } else {
                rest.push(one);
            }
            proof {
                done = done + 1;
            }
        }
        self.active = rest;
        proof {
            settled_takes(
                told,
                old(jobs).is_closed(),
                left,
                left.len(),
                at,
                before.recording_id,
                before.sequence,
            );
            if before.recording_id != 0 {
                let i = choose|i: int|
                    0 <= i < left.len() && (#[trigger] left[i]).id == before.recording_id
                        && left[i].end_at < 0;
                assert(self.active@.contains(left[i]));
                let k = choose|k: int| 0 <= k < self.active@.len() && self.active@[k] == left[i];
                assert(self.active@[k].id == before.recording_id);
            }
        }
    }

    /// Ends all takes for a reason, and with them the writer's queue.
    pub fn finish<M>(&mut self, reason: &str, jobs: &mut Queue<Job<P, M>>)
        requires
            old(self).kept(),
            old(jobs).wf(),
        ensures
            final(self).kept(),
            final(self)@ == (Kept { active: Seq::empty(), recording_id: 0, ..old(self)@ }),
            final(jobs).wf(),
            final(jobs).limit() == old(jobs).limit(),
            final(jobs).is_closed(),
            old(jobs).is_closed() ==> final(jobs).waiting() == old(jobs).waiting(),
            !old(jobs).is_closed() ==> ({
                let n = old(jobs).waiting().len();
                &&& final(jobs).waiting().len() == n + old(self)@.active.len()
                &&& final(jobs).waiting().take(n as int) == old(jobs).waiting()
                &&& forall|i: int|
                    0 <= i < old(self)@.active.len() ==> shuts(
                        final(jobs).waiting()[n + i],
                        #[trigger] old(self)@.active[i],
                        reason@,
                    )
            }),
    {
        let ghost before = self.active@;
        let ghost n = jobs.waiting().len();
        let failed = same(reason, "engine_error");
        let mut all: Vec<Active> = Vec::new();
        std::mem::swap(&mut all, &mut self.active);
        let ghost mut done: int = 0;
        proof {
            assert(all@ =~= before.skip(0));
            assert(jobs.waiting().take(n as int) =~= jobs.waiting());
        }
        while all.len() > 0
            invariant
                0 <= done <= before.len(),
                all@ == before.skip(done),
                n == old(jobs).waiting().len(),
                failed == (reason@ == "engine_error"@),
                jobs.wf(),
                jobs.limit() == old(jobs).limit(),
                jobs.is_closed() == old(jobs).is_closed(),
                *self == (Ring { active: self.active, ..*old(self) }),
                self.active@.len() == 0,
                jobs.is_closed() ==> jobs.waiting() == old(jobs).waiting(),
                !jobs.is_closed() ==> ({
                    &&& jobs.waiting().len() == n + done
                    &&& jobs.waiting().take(n as int) == old(jobs).waiting()
                    &&& forall|i: int|
                        0 <= i < done ==> shuts(
                            jobs.waiting()[n + i],
                            #[trigger] before[i],
                            reason@,
                        )
                }),
            decreases all.len(),
        {
            let one = all.remove(0);
            let ghost was = jobs.waiting();
            proof {
                assert(one == before[done]);
                assert(all@ =~= before.skip(done + 1));
            }
            let end = End::Shutdown { stop: one.stop, failed, reason: reason.to_owned() };
            let _ = jobs.push(Job::End(one.id, end), 0, true);
            proof {
                if !jobs.is_closed() {
                    assert(jobs.waiting().take(n as int) =~= was.take(n as int));
                    assert forall|i: int| 0 <= i < done + 1 implies shuts(
                        jobs.waiting()[n + i],
                        #[trigger] before[i],
                        reason@,
                    ) by {
                        if i < done {
                            assert(jobs.waiting()[n + i] == was[n + i]);
                        }
                    }
                }
                done = done + 1;
            }
        }
        self.recording_id = 0;
        jobs.close();
        assert(self@.active =~= Seq::<Active>::empty());
    }

    /// Whether the gain must stay as it is. The tail after a stop still belongs to
    /// the take.
    pub fn gain_locked(&self) -> (res: bool)
        ensures
            res == (self@.active.len() > 0),
    {
        self.active.len() > 0
    }

    /// What the ring holds, in bytes; how many items the limit cost; whether a take
    /// is recorded; how many were started, and how many completed.
    pub fn stats(&self) -> (res: (usize, u64, bool, u64, u64))
        ensures
            res.0 == self@.bytes,
            res.1 == self@.dropped,
            res.2 == (self@.recording_id != 0),
            res.3 == self@.sequence,
            res.4 == self@.completed,
    {
        (self.ring_bytes, self.dropped, self.recording_id != 0, self.sequence, self.completed)
    }

    /// How many nanoseconds the ring keeps.
    pub fn horizon(&self) -> (res: i64)
        ensures
            res == self@.horizon,
    {
        self.horizon
    }
}

impl<P> Ring<P> {
    /// The ring never holds more than its limit, what it counts is what it holds, and
    /// the history behind it is bounded too.
    pub proof fn is_bounded(&self)
        requires
            self.wf(),
        ensures
            self@.bytes == cost(self@.items),
            self@.bytes <= RING_BYTES,
            self@.step_bytes <= HISTORY_BYTES,
    {
    }
}

/// Only the oldest items leave, and none that has to leave stays: what is left is the
/// end of what there was, it begins within the horizon, and it keeps to the limit.
pub proof fn only_the_oldest_leave<P>(s: Kept<P>, newest: i64)
    requires
        !evicted(s, newest).1,
    ensures
        exists|n: int| 0 <= n <= s.items.len() && evicted(s, newest).0.items == s.items.skip(n),
        !leaves(evicted(s, newest).0, newest),
        s.bytes == cost(s.items) ==> evicted(s, newest).0.bytes == cost(
            evicted(s, newest).0.items,
        ),
    decreases s.items.len(),
{
    if leaves(s, newest) {
        let old = s.items[0];
        let rest = Kept { items: s.items.drop_first(), ..s };
        let next = Kept {
            dropped: if s.bytes > RING_BYTES {
                s.dropped + 1
            } else {
                s.dropped
            },
            bytes: s.bytes - old.bytes,
            ..remembered(rest, old)
        };
        only_the_oldest_leave(next, newest);
        let n = choose|n: int|
            0 <= n <= next.items.len() && evicted(next, newest).0.items == next.items.skip(n);
        assert(next.items.skip(n) =~= s.items.skip(n + 1));
    } else {
        assert(s.items.skip(0) =~= s.items);
    }
}

/// A take that begins has all that led up to it: every item in the ring, and the last
/// checkpoint behind the ring with the steps since. And from then on the gain is
/// locked.
pub proof fn take_begins_with_the_past<P, M>(
    before: Kept<P>,
    after: Kept<P>,
    jobs: Queue<Job<P, M>>,
    then: Queue<Job<P, M>>,
    event: crate::json::Tree,
    meta: Arc<M>,
    bytes: usize,
)
    requires
        command_of(event) == Command::Start,
        before.recording_id == 0,
        commanded(
            before,
            after,
            jobs,
            then,
            event,
            meta,
            bytes,
            Ok::<_, RingError>(Note::Done),
        ),
    ensures
        begins(then.waiting().last().0, after.recording_id, before, meta),
        after.active.len() > 0,
        after.items == before.items,
{
}

/// The gain stays locked through the tail of a take: whatever a poll ends, a take that
/// was not stopped, or whose tail is not over, and whose writing did not fail, is
/// still there after it.
pub proof fn gain_stays_locked_through_the_tail<P, M>(
    active: Seq<Active>,
    recording_id: u64,
    sequence: u64,
    failures: Seq<u64>,
    waiting: Seq<(Job<P, M>, usize)>,
    closed_: bool,
    at: i64,
    i: int,
)
    requires
        has_takes(active, recording_id, sequence),
        0 <= i < active.len(),
        !failures.contains(active[i].id),
        !is_over(active[i], at),
    ensures
        settled(
            waiting,
            closed_,
            spared(active, failures),
            spared(active, failures).len(),
            at,
        ).0.contains(active[i]),
{
    spared_takes(active, failures, recording_id, sequence);
    let left = spared(active, failures);
    settled_takes(
        waiting,
        closed_,
        left,
        left.len(),
        at,
        if failures.contains(recording_id) {
            0
        } else {
            recording_id
        },
        sequence,
    );
    let k = choose|k: int| 0 <= k < left.len() && left[k] == active[i];
    assert(left[k] == active[i]);
}

/// A packet of captured audio: the frame of the engine's input at which it begins,
/// how many frames it has, the flags it came with, its place on the device, and when
/// it was recorded.
#[derive(Clone, Copy, PartialEq, Eq, Structural, Debug)]
pub struct Packet {
    pub file: u64,
    pub frames: u32,
    pub flags: u32,
    pub device: u64,
    pub time: i64,
}

impl Packet {
    /// The stream was interrupted before the packet.
    pub open spec fn is_interrupted(self) -> bool {
        self.flags % 2 == 1
    }

    /// The time of the packet can be trusted.
    pub open spec fn is_timed(self) -> bool {
        self.flags / 4 % 2 == 0
    }
}

/// What is counted of a take while it is written.
#[derive(Clone, Copy, PartialEq, Eq, Structural, Debug)]
pub struct Take {
    pub save_raw: bool,
    /// A checkpoint has been written.
    pub bootstrap: bool,
    pub raw_started: bool,
    /// The engine's frame at which the take begins, and the one expected next.
    pub raw_base: u64,
    pub raw_next: u64,
    pub sequence: u64,
    pub input_frames: u64,
    pub output_frames: u64,
    pub discontinuities: u64,
    pub bad_times: u64,
    pub gaps: u64,
    pub previous_device: u64,
    pub previous_valid: bool,
    pub first_audio: i64,
    pub last_audio: i64,
}

/// What is noted of a packet in a take.
#[derive(Clone, Copy, PartialEq, Eq, Structural, Debug)]
pub struct PacketNote {
    pub packet_sequence: u64,
    pub file_frame_start: u64,
    pub engine_frame_gap: bool,
    pub device_position_gap: bool,
}

/// What is noted of a block of output in a take.
#[derive(Clone, Copy, PartialEq, Eq, Structural, Debug)]
pub struct BlockNote {
    pub input_file_frame: u64,
    pub output_file_frame: u64,
}

/// The packet does not begin where the last one ended on the device.
pub open spec fn gap_before(t: Take, p: Packet) -> bool {
    p.is_timed() && t.previous_valid && p.device != t.previous_device
}

/// The counts after a packet.
pub open spec fn with_packet(t: Take, p: Packet) -> Take {
    Take {
        raw_started: true,
        raw_base: if t.raw_started {
            t.raw_base
        } else {
            p.file
        },
        first_audio: if t.raw_started {
            t.first_audio
        } else {
            p.time
        },
        raw_next: (p.file + p.frames) as u64,
        sequence: (t.sequence + 1) as u64,
        input_frames: (t.input_frames + p.frames) as u64,
        discontinuities: (t.discontinuities + if p.is_interrupted() {
            1int
        } else {
            0
        }) as u64,
        bad_times: (t.bad_times + if p.is_timed() {
            0int
        } else {
            1
        }) as u64,
        gaps: (t.gaps + if gap_before(t, p) {
            1int
        } else {
            0
        }) as u64,
        previous_device: (p.device + p.frames) as u64,
        previous_valid: p.is_timed(),
        last_audio: p.time,
        ..t
    }
}

/// What is noted of a packet: its number and its first frame in the take, and whether
/// frames are missing before it.
pub open spec fn packet_note(t: Take, p: Packet) -> PacketNote {
    PacketNote {
        packet_sequence: t.sequence,
        file_frame_start: t.input_frames,
        engine_frame_gap: t.raw_started && p.file != t.raw_next,
        device_position_gap: gap_before(t, p),
    }
}

/// What is noted of a block of output, unless it was made of audio from before the take.
pub open spec fn block_note(t: Take, first: u64) -> Option<BlockNote> {
    if t.raw_started && first >= t.raw_base {
        Some(
            BlockNote {
                input_file_frame: (first - t.raw_base) as u64,
                output_file_frame: t.output_frames,
            },
        )
    } else {
        None
    }
}

/// The take after a block of output.
pub open spec fn with_output(t: Take, frames: u64) -> Take {
    Take { output_frames: (t.output_frames + frames) as u64, ..t }
}

/// How much of the take lies before its start, in nanoseconds.
pub open spec fn preroll(t: Take, start: i64) -> int {
    if t.first_audio >= 0 && start > t.first_audio {
        start - t.first_audio
    } else {
        0
    }
}

impl Take {
    pub fn new(save_raw: bool) -> (t: Take)
        ensures
            t == (Take {
                save_raw,
                bootstrap: false,
                raw_started: false,
                raw_base: 0,
                raw_next: 0,
                sequence: 0,
                input_frames: 0,
                output_frames: 0,
                discontinuities: 0,
                bad_times: 0,
                gaps: 0,
                previous_device: 0,
                previous_valid: false,
                first_audio: NOT_STOPPED,
                last_audio: NOT_STOPPED,
            }),
    {
        Take {
            save_raw,
            bootstrap: false,
            raw_started: false,
            raw_base: 0,
            raw_next: 0,
            sequence: 0,
            input_frames: 0,
            output_frames: 0,
            discontinuities: 0,
            bad_times: 0,
            gaps: 0,
            previous_device: 0,
            previous_valid: false,
            first_audio: NOT_STOPPED,
            last_audio: NOT_STOPPED,
        }
    }

    /// Each count is at most the number of packets.
    pub open spec fn wf(self) -> bool {
        &&& self.discontinuities <= self.sequence
        &&& self.bad_times <= self.sequence
        &&& self.gaps <= self.sequence
        &&& self.raw_started <==> self.sequence > 0
    }

    /// Whether a checkpoint is to be written: only the first one is, and only with the
    /// raw data.
    pub fn checkpoint(&self) -> (res: bool)
        ensures
            res == (self.save_raw && !self.bootstrap),
    {
        self.save_raw && !self.bootstrap
    }

    /// The checkpoint has been written.
    pub fn bootstrapped(&mut self)
        ensures
            *final(self) == (Take { bootstrap: true, ..*old(self) }),
    {
        self.bootstrap = true;
    }

    /// Counts a packet in.
    pub fn audio(&mut self, p: Packet) -> (note: PacketNote)
        requires
            old(self).wf(),
            p.file + p.frames <= u64::MAX,
            p.device + p.frames <= u64::MAX,
            old(self).input_frames + p.frames <= u64::MAX,
            old(self).sequence < u64::MAX,
        ensures
            final(self).wf(),
            *final(self) == with_packet(*old(self), p),
            note == packet_note(*old(self), p),
    {
        if !self.raw_started {
            self.raw_base = p.file;
            self.raw_next = p.file;
            self.raw_started = true;
            self.first_audio = p.time;
        }
        let packet_sequence: u64 = self.sequence;
        self.sequence = self.sequence + 1;
        let engine_frame_gap = p.file != self.raw_next;
        self.raw_next = p.file + p.frames as u64;
        let valid = p.flags / 4 % 2 == 0;
        let device_position_gap = valid && self.previous_valid && p.device != self.previous_device;
        if p.flags % 2 == 1 {
            self.discontinuities = self.discontinuities + 1;
        }
        if !valid {
            self.bad_times = self.bad_times + 1;
        }
        if device_position_gap {
            self.gaps = self.gaps + 1;
        }
        self.previous_device = p.device + p.frames as u64;
        self.previous_valid = valid;
        self.last_audio = p.time;
        let file_frame_start: u64 = self.input_frames;
        self.input_frames = self.input_frames + p.frames as u64;
        PacketNote { packet_sequence, file_frame_start, engine_frame_gap, device_position_gap }
    }

    /// What is noted of a block of output, unless it was made of audio from before the
    /// take. The block is not counted before it has been written.
    pub fn output(&self, first: u64) -> (res: Option<BlockNote>)
        ensures
            res == block_note(*self, first),
    {
        if !self.raw_started || first < self.raw_base {
            return None;
        }
        Some(
            BlockNote {
                input_file_frame: first - self.raw_base,
                output_file_frame: self.output_frames,
            },
        )
    }

    /// A block of output has been written.
    pub fn put_out(&mut self, frames: u64)
        requires
            old(self).output_frames + frames <= u64::MAX,
        ensures
            *final(self) == with_output(*old(self), frames),
    {
        self.output_frames = self.output_frames + frames;
    }

    /// How much of the take lies before its start, in nanoseconds on the session's
    /// clock.
    pub fn preroll_ns(&self, start: i64) -> (res: i64)
        requires
            self.first_audio >= 0 ==> start - self.first_audio <= i64::MAX,
        ensures
            res == preroll(*self, start),
    {
        if self.first_audio >= 0 && start > self.first_audio {
            start - self.first_audio
        } else {
            0
        }
    }
}

/// The frames of a take are numbered without a break: a packet begins in the take
/// where the one before it ended, whatever gaps the device had.
pub proof fn take_frames_are_contiguous(t: Take, p: Packet, q: Packet)
    requires
        t.input_frames + p.frames <= u64::MAX,
        t.sequence < u64::MAX,
    ensures
        packet_note(with_packet(t, p), q).file_frame_start == packet_note(t, p).file_frame_start
            + p.frames,
        packet_note(with_packet(t, p), q).packet_sequence == packet_note(t, p).packet_sequence + 1,
{
}

/// What the writer knows of its takes: which are open, and which have failed and not
/// ended yet.
#[derive(Debug)]
pub struct Archive {
    open: Vec<u64>,
    failed: Vec<u64>,
}

/// The takes that are open, and those that have failed, after a job for one of them.
pub open spec fn after_job(
    takes: Set<u64>,
    failures: Set<u64>,
    id: u64,
    is_end: bool,
    ok: bool,
) -> (Set<u64>, Set<u64>) {
    (
        if !ok || (is_end && !failures.contains(id)) {
            takes.remove(id)
        } else {
            takes
        },
        if is_end {
            failures.remove(id)
        } else if !ok {
            failures.insert(id)
        } else {
            failures
        },
    )
}

/// A take that has failed stays failed, so that nothing more is written to it, until its
/// own end; and what fails for one take changes nothing for another.
pub proof fn failed_takes_are_left_alone(
    takes: Set<u64>,
    failures: Set<u64>,
    failed: u64,
    id: u64,
    is_end: bool,
    ok: bool,
)
    requires
        failures.contains(failed),
        id != failed || !is_end,
    ensures
        after_job(takes, failures, id, is_end, ok).1.contains(failed),
        forall|other: u64|
            other != id ==> (after_job(takes, failures, id, is_end, ok).0.contains(other)
                <==> #[trigger] takes.contains(other)) && (after_job(
                takes,
                failures,
                id,
                is_end,
                ok,
            ).1.contains(other) <==> failures.contains(other)),
{
}

impl Archive {
    /// The takes that are open.
    pub closed spec fn takes(&self) -> Set<u64> {
        self.open@.to_set()
    }

    /// The takes that have failed.
    pub closed spec fn failures(&self) -> Set<u64> {
        self.failed@.to_set()
    }

    pub fn new() -> (a: Archive)
        ensures
            a.takes() == Set::<u64>::empty(),
            a.failures() == Set::<u64>::empty(),
    {
        let a = Archive { open: Vec::new(), failed: Vec::new() };
        assert(a.takes() =~= Set::<u64>::empty());
        assert(a.failures() =~= Set::<u64>::empty());
        a
    }

    /// Whether a job for a take is carried out: the take is open and has not failed.
    pub fn acts(&self, id: u64) -> (res: bool)
        ensures
            res == (self.takes().contains(id) && !self.failures().contains(id)),
    {
        !holds_id(&self.failed, id) && holds_id(&self.open, id)
    }

    /// A take has been opened.
    pub fn opened(&mut self, id: u64)
        ensures
            final(self).takes() == old(self).takes().insert(id),
            final(self).failures() == old(self).failures(),
    {
        let ghost was = self.open@;
        self.open.push(id);
        assert(self.takes() =~= old(self).takes().insert(id)) by {
            assert(self.open@[was.len() as int] == id);
            assert forall|x: u64| was.contains(x) implies self.open@.contains(x) by {
                let i = choose|i: int| 0 <= i < was.len() && was[i] == x;
                assert(self.open@[i] == x);
            }
        }
    }

    /// A job for a take is over. Where it failed the take has failed, and whether it
    /// was open is given. The end of a take closes it, and clears its failure.
    pub fn settle(&mut self, id: u64, is_end: bool, ok: bool) -> (was_open: bool)
        ensures
            was_open == (!ok && old(self).takes().contains(id)),
            (final(self).takes(), final(self).failures()) == after_job(
                old(self).takes(),
                old(self).failures(),
                id,
                is_end,
                ok,
            ),
    {
        let was_open = !ok && holds_id(&self.open, id);
        let failed = holds_id(&self.failed, id);
        if !ok || (is_end && !failed) {
            self.open = less(&self.open, id);
        }
        if is_end {
            self.failed = less(&self.failed, id);
        } else if !ok {
            let ghost was = self.failed@;
            self.failed.push(id);
            assert(self.failed@.to_set() =~= was.to_set().insert(id)) by {
                assert(self.failed@[was.len() as int] == id);
                assert forall|x: u64| was.contains(x) implies self.failed@.contains(x) by {
                    let i = choose|i: int| 0 <= i < was.len() && was[i] == x;
                    assert(self.failed@[i] == x);
                }
            }
        }
        was_open
    }
}

fn less(list: &Vec<u64>, id: u64) -> (res: Vec<u64>)
    ensures
        res@.to_set() == list@.to_set().remove(id),
{
    let mut res: Vec<u64> = Vec::new();
    let mut i: usize = 0;
    while i < list.len()
        invariant
            i <= list.len(),
            forall|x: u64|
                res@.contains(x) <==> (x != id && exists|k: int|
                    0 <= k < i && #[trigger] list@[k] == x),
        decreases list.len() - i,
    {
        let one: u64 = list[i];
        let ghost was = res@;
        if one != id {
            res.push(one);
        }
        proof {
            assert forall|x: u64|
                res@.contains(x) <==> (x != id && exists|k: int|
                    0 <= k < i + 1 && #[trigger] list@[k] == x) by {
                if res@.contains(x) {
                    let j = choose|j: int| 0 <= j < res@.len() && res@[j] == x;
                    if j < was.len() {
                        assert(was[j] == x);
                        assert(was.contains(x));
                    } else {
                        assert(list@[i as int] == x);
                    }
                }
                if x != id && exists|k: int| 0 <= k < i + 1 && #[trigger] list@[k] == x {
                    let k = choose|k: int| 0 <= k < i + 1 && #[trigger] list@[k] == x;
                    if k < i {
                        assert(list@[k] == x);
                        assert(was.contains(x));
                        let j = choose|j: int| 0 <= j < was.len() && was[j] == x;
                        assert(res@[j] == x);
                    } else {
                        assert(res@[was.len() as int] == x);
                    }
                }
            }
        }
        i += 1;
    }
    proof {
        assert forall|x: u64| res@.to_set().contains(x) <==> list@.to_set().remove(id).contains(
            x,
        ) by {
            if list@.contains(x) && x != id {
                let k = choose|k: int| 0 <= k < list@.len() && list@[k] == x;
                assert(list@[k] == x);
            }
        }
        assert(res@.to_set() =~= list@.to_set().remove(id));
    }
    res
}

/// Whether there is room on the disk to begin a take: a gibibyte.
pub fn has_room_to_begin(available: u64) -> (res: bool)
    ensures
        res == (available >= 0x4000_0000),
{
    available >= 0x4000_0000
}

/// Whether there is room on the disk to go on with one: a quarter of that.
pub fn has_room_to_go_on(available: u64) -> (res: bool)
    ensures
        res == (available >= 0x1000_0000),
{
    available >= 0x1000_0000
}

proof fn commands_differ()
    ensures
        "recording_started"@ != "recording_stopped"@,
{
    reveal_strlit("recording_started");
    reveal_strlit("recording_stopped");
    assert("recording_started"@[12] == 'a' && "recording_stopped"@[12] == 'o');
}

/// What a poll leaves of takes is not over, and what was over is ended with its stop.
proof fn settled_ends<P, M>(
    waiting: Seq<(Job<P, M>, usize)>,
    closed_: bool,
    active: Seq<Active>,
    n: nat,
    at: i64,
    k: int,
)
    requires
        n <= active.len(),
        0 <= k < n,
    ensures
        ({
            let (rest, jobs, ended) = settled(waiting, closed_, active, n, at);
            &&& forall|i: int| 0 <= i < rest.len() ==> !is_over(#[trigger] rest[i], at)
            &&& is_over(active[k], at) && !closed_ ==> exists|j: int|
                0 <= j < jobs.len() && #[trigger] jobs[j] == (
                    Job::<P, M>::End(active[k].id, End::Stopped(active[k].stop)),
                    0usize,
                )
        }),
    decreases n,
{
    let (rest, jobs, ended) = settled(waiting, closed_, active, n, at);
    let (fewer, sent, _) = settled(waiting, closed_, active, (n - 1) as nat, at);
    let a = active[n - 1];
    if n > 1 {
        settled_ends(
            waiting,
            closed_,
            active,
            (n - 1) as nat,
            at,
            if k < n - 1 {
                k
            } else {
                0
            },
        );
    } else {
        assert(fewer =~= Seq::<Active>::empty());
    }
    assert forall|i: int| 0 <= i < rest.len() implies !is_over(#[trigger] rest[i], at) by {
        if i < fewer.len() {
            assert(rest[i] == fewer[i]);
        }
    }
    if is_over(active[k], at) && !closed_ {
        let want = (Job::<P, M>::End(active[k].id, End::Stopped(active[k].stop)), 0usize);
        if k == n - 1 {
            assert(jobs[sent.len() as int] == want);
        } else {
            let j = choose|j: int| 0 <= j < sent.len() && #[trigger] sent[j] == want;
            assert(jobs[j] == want);
        }
    }
}

/// A job that ends a take because it was stopped at a time, with what was filmed.
pub open spec fn ends_with_stop<P, M>(
    job: (Job<P, M>, usize),
    id: u64,
    t: i64,
    video_path: Seq<char>,
) -> bool {
    match job.0 {
        Job::End(n, End::Stopped(Some(stop))) => n == id && stop.at_ns == t && stop.video_path@
            == video_path,
        _ => false,
    }
}

/// A take goes on for half a second after its stop, counted in the time of the session,
/// whenever that began: the time of the stop is one of the machine, of which the session's
/// beginning is taken off. A poll before that leaves the take as it is, with the gain
/// locked. A poll at that time or later ends it, and says when it was stopped and what was
/// filmed.
pub proof fn stopped_takes_end_after_their_tail<P, M>(
    before: Kept<P>,
    stopped: Kept<P>,
    jobs: Queue<Job<P, M>>,
    then: Queue<Job<P, M>>,
    event: crate::json::Tree,
    t: i64,
    mark: Arc<M>,
    bytes: usize,
    res: Result<Note, RingError>,
    after: Kept<P>,
    queued: Queue<Job<P, M>>,
    last: Queue<Job<P, M>>,
    failures: Seq<u64>,
    at: i64,
)
    requires
        has_takes(before.active, before.recording_id, before.sequence),
        before.recording_id != 0,
        event.text_at("event"@) == Some("recording_stopped"@),
        event.signed_at("qpc_ns"@) == Some(t),
        i64::MIN <= t - before.origin + 500_000_000 <= i64::MAX,
        commanded(before, stopped, jobs, then, event, mark, bytes, res),
        polled(stopped, after, queued, last, failures, at),
        !failures.contains(before.recording_id),
        0 <= t - before.origin + 500_000_000,
    ensures
        res == Ok::<_, RingError>(Note::Done),
        stopped.recording_id == 0,
        at < t - before.origin + 500_000_000 ==> exists|i: int|
            0 <= i < after.active.len() && (#[trigger] after.active[i]).id == before.recording_id,
        at >= t - before.origin + 500_000_000 ==> {
            &&& forall|i: int|
                0 <= i < after.active.len() ==> (#[trigger] after.active[i]).id
                    != before.recording_id
            &&& !queued.is_closed() ==> exists|j: int|
                0 <= j < last.waiting().len() && ends_with_stop(
                    #[trigger] last.waiting()[j],
                    before.recording_id,
                    t,
                    match event.text_at("video_path"@) {
                        Some(path) => path,
                        None => Seq::empty(),
                    },
                )
        },
{
    commands_differ();
    let id = before.recording_id;
    let active = stopped.active;
    let b = choose|i: int|
        0 <= i < before.active.len() && (#[trigger] before.active[i]).id == id
            && before.active[i].end_at < 0;
    assert(active[b].id == id && active[b].end_at == t - before.origin + 500_000_000);
    assert(has_takes(active, 0, stopped.sequence)) by {
        assert forall|i: int| 0 <= i < active.len() implies (#[trigger] active[i]).id
            == before.active[i].id by {}
        assert forall|i: int, j: int| 0 <= i < j < active.len() implies (#[trigger] active[i]).id
            < (#[trigger] active[j]).id by {
            assert(before.active[i].id < before.active[j].id);
        }
        assert forall|i: int| 0 <= i < active.len() implies 0 < (#[trigger] active[i]).id
            <= stopped.sequence by {
            assert(before.active[i].id > 0);
        }
    }
    spared_takes(active, failures, 0, stopped.sequence);
    let left = spared(active, failures);
    assert(left.contains(active[b]));
    let k = choose|k: int| 0 <= k < left.len() && left[k] == active[b];
    assert(left[k] == active[b]);
    let told = dismissed(queued.waiting(), queued.is_closed(), failures, failures.len());
    settled_takes(told, queued.is_closed(), left, left.len(), at, 0, stopped.sequence);
    settled_ends(told, queued.is_closed(), left, left.len(), at, k);
    let rest = after.active;
    if at < t - before.origin + 500_000_000 {
        assert(!is_over(left[k], at));
        assert(rest.contains(left[k]));
        let i = choose|i: int| 0 <= i < rest.len() && rest[i] == left[k];
        assert(rest[i].id == id);
    } else {
        assert(is_over(left[k], at));
        assert forall|i: int| 0 <= i < rest.len() implies (#[trigger] rest[i]).id != id by {
            let m = choose|m: int| 0 <= m < left.len() && left[m] == rest[i];
            assert(!is_over(rest[i], at));
            if m < k {
                assert(left[m].id < left[k].id);
            } else if k < m {
                assert(left[k].id < left[m].id);
            }
        }
        if !queued.is_closed() {
            let j = choose|j: int|
                0 <= j < last.waiting().len() && #[trigger] last.waiting()[j] == (
                    Job::<P, M>::End(left[k].id, End::Stopped(left[k].stop)),
                    0usize,
                );
            assert(ends_with_stop(last.waiting()[j], id, t, filmed(event)));
        }
    }
}

/// A start begins one take, numbered one up, that is not stopped; it is handed the item
/// that each place of the ring holds, the checkpoint behind the ring and the steps since,
/// and costs what all of that costs. Where the writer has no room for it, there is no
/// take. While one is recorded another does not begin, and a start needs its time.
pub proof fn starts_begin_one_take<P, M>(
    before: Kept<P>,
    after: Kept<P>,
    jobs: Queue<Job<P, M>>,
    then: Queue<Job<P, M>>,
    event: crate::json::Tree,
    meta: Arc<M>,
    bytes: usize,
    res: Result<Note, RingError>,
)
    requires
        event.text_at("event"@) == Some("recording_started"@),
        before.sequence < u64::MAX,
        commanded(before, after, jobs, then, event, meta, bytes, res),
    ensures
        before.recording_id != 0 ==> after == before && then.waiting() == jobs.waiting() && res
            == Ok::<_, RingError>(Note::Done),
        before.recording_id == 0 && event.signed_at("qpc_ns"@) is None ==> after == before
            && then.waiting() == jobs.waiting() && res == Err::<Note, _>(RingError::Time),
        before.recording_id == 0 && event.signed_at("qpc_ns"@) is Some ==> {
            let cost = before.bytes + before.step_bytes + match before.baseline {
                Some(b) => b.bytes as int,
                None => 0,
            };
            let room = !jobs.is_closed() && queue::total(jobs.waiting()) + cost <= jobs.limit();
            &&& after.sequence == before.sequence + 1
            &&& after.items == before.items && after.bytes == before.bytes
            &&& room ==> {
                &&& res == Ok::<_, RingError>(Note::Done)
                &&& after.recording_id == before.sequence + 1
                &&& after.active.len() == before.active.len() + 1
                &&& after.active.drop_last() == before.active
                &&& after.active.last().id == before.sequence + 1
                &&& after.active.last().end_at < 0
                &&& after.active.last().stop is None
                &&& then.waiting().drop_last() == jobs.waiting()
                &&& then.waiting().last().1 == cost
                &&& then.waiting().last().0 matches Job::Begin {
                    id,
                    meta: about,
                    dropped,
                    baseline,
                    steps,
                    seed,
                }
                &&& id == before.sequence + 1
                &&& about == meta
                &&& dropped == before.dropped
                &&& baseline == before.baseline
                &&& steps@ == before.steps
                &&& seed@ == before.items
            }
            &&& !room ==> {
                &&& res == Ok::<_, RingError>(Note::Refused)
                &&& after.recording_id == 0
                &&& after.active == before.active
                &&& then.waiting() == jobs.waiting()
            }
        },
{
    commands_differ();
    assert(before.active.push(after.active.last()).drop_last() =~= before.active);
}

/// A stop ends the recording at once and leaves every other take as it is. Without a
/// recording it does nothing, and without its time it is an error.
pub proof fn stops_leave_other_takes_alone<P, M>(
    before: Kept<P>,
    after: Kept<P>,
    jobs: Queue<Job<P, M>>,
    then: Queue<Job<P, M>>,
    event: crate::json::Tree,
    mark: Arc<M>,
    bytes: usize,
    res: Result<Note, RingError>,
)
    requires
        event.text_at("event"@) == Some("recording_stopped"@),
        commanded(before, after, jobs, then, event, mark, bytes, res),
    ensures
        before.recording_id == 0 ==> after == before && then.waiting() == jobs.waiting() && res
            == Ok::<_, RingError>(Note::Done),
        before.recording_id != 0 ==> {
            &&& after.recording_id == 0
            &&& after.active.len() == before.active.len()
            &&& forall|i: int|
                0 <= i < before.active.len() && (#[trigger] before.active[i]).id
                    != before.recording_id ==> after.active[i] == before.active[i]
            &&& forall|i: int|
                0 <= i < before.active.len() ==> after.active[i].id == (
                #[trigger] before.active[i]).id
            &&& after.items == before.items && after.sequence == before.sequence
                && after.completed == before.completed
        },
        before.recording_id != 0 && event.signed_at("qpc_ns"@) is None ==> res == Err::<Note, _>(
            RingError::Time,
        ) && after.active == before.active && then.waiting() == jobs.waiting(),
        before.recording_id != 0 && event.signed_at("qpc_ns"@) is Some && !jobs.is_closed()
            && queue::total(jobs.waiting()) + bytes <= jobs.limit() ==> then.waiting()
            == jobs.waiting().push((Job::Mark(before.recording_id, mark), bytes)),
{
    commands_differ();
}

/// Any other event is marked in every take, in their order, where there is room for it.
pub proof fn events_are_marked_in_every_take<P, M>(
    before: Kept<P>,
    after: Kept<P>,
    jobs: Queue<Job<P, M>>,
    then: Queue<Job<P, M>>,
    event: crate::json::Tree,
    mark: Arc<M>,
    bytes: usize,
    res: Result<Note, RingError>,
)
    requires
        event.text_at("event"@) != Some("recording_started"@),
        event.text_at("event"@) != Some("recording_stopped"@),
        commanded(before, after, jobs, then, event, mark, bytes, res),
        !jobs.is_closed(),
        queue::total(jobs.waiting()) + before.active.len() * bytes <= jobs.limit(),
    ensures
        after == before,
        then.waiting() == jobs.waiting() + Seq::new(
            before.active.len(),
            |i: int| (Job::<P, M>::Mark(before.active[i].id, mark), bytes),
        ),
{
    marks_fit(
        jobs.waiting(),
        jobs.limit(),
        before.active,
        before.active.len(),
        mark,
        bytes,
    );
}

proof fn marks_fit<P, M>(
    waiting: Seq<(Job<P, M>, usize)>,
    limit: usize,
    active: Seq<Active>,
    n: nat,
    mark: Arc<M>,
    bytes: usize,
)
    requires
        n <= active.len(),
        queue::total(waiting) + n * bytes <= limit,
    ensures
        marked(waiting, limit, false, active, n, mark, bytes) == waiting + Seq::new(
            n,
            |i: int| (Job::<P, M>::Mark(active[i].id, mark), bytes),
        ),
        queue::total(marked(waiting, limit, false, active, n, mark, bytes)) == queue::total(waiting)
            + n * bytes,
    decreases n,
{
    let list = Seq::new(n, |i: int| (Job::<P, M>::Mark(active[i].id, mark), bytes));
    if n > 0 {
        assert(n * bytes == (n - 1) * bytes + bytes) by (nonlinear_arith)
            requires
                n > 0,
        ;
        marks_fit(waiting, limit, active, (n - 1) as nat, mark, bytes);
        let w = marked(waiting, limit, false, active, (n - 1) as nat, mark, bytes);
        let one = (Job::<P, M>::Mark(active[n - 1].id, mark), bytes);
        queue::total_with(w, one);
        assert(w.push(one) =~= waiting + list);
    } else {
        assert(waiting + list =~= waiting);
        assert(0 * bytes == 0) by (nonlinear_arith);
    }
}

/// An item goes to every take that is written, in their order, where the writer has room
/// for all; a closed queue fails them all. A take fails exactly where it got no item.
pub proof fn items_go_to_every_take<P, M>(
    waiting: Seq<(Job<P, M>, usize)>,
    limit: usize,
    active: Seq<Active>,
    n: nat,
    item: Arc<Item<P>>,
)
    requires
        n <= active.len(),
    ensures
        queue::total(waiting) + n * item.bytes <= limit ==> fanned(
            waiting,
            limit,
            false,
            active,
            n,
            item,
        ) == (
            waiting + Seq::new(
                n,
                |i: int| (Job::<P, M>::Item(active[i].id, item), item.bytes),
            ),
            Seq::<u64>::empty(),
        ),
        fanned(waiting, limit, true, active, n, item) == (
            waiting,
            Seq::new(n, |i: int| active[i].id),
        ),
        ({
            let (w, failed) = fanned(waiting, limit, false, active, n, item);
            &&& w.len() == waiting.len() + n
            &&& w.take(waiting.len() as int) == waiting
            &&& forall|i: int|
                0 <= i < n ==> (#[trigger] w[waiting.len() + i] == (
                    Job::<P, M>::Item(active[i].id, item),
                    item.bytes,
                ) || (w[waiting.len() + i] == (
                    Job::<P, M>::End(active[i].id, End::Overflow),
                    0usize,
                ) && failed.contains(active[i].id)))
        }),
    decreases n,
{
    let list = Seq::new(n, |i: int| (Job::<P, M>::Item(active[i].id, item), item.bytes));
    let ids = Seq::new(n, |i: int| active[i].id);
    let (w, failed) = fanned(waiting, limit, false, active, n, item);
    if n > 0 {
        let m = (n - 1) as nat;
        items_go_to_every_take(waiting, limit, active, m, item);
        let one = (Job::<P, M>::Item(active[n - 1].id, item), item.bytes);
        let (v, few) = fanned(waiting, limit, false, active, m, item);
        if queue::total(waiting) + n * item.bytes <= limit {
            assert(n * item.bytes == (n - 1) * item.bytes + item.bytes) by (nonlinear_arith)
                requires
                    n > 0,
            ;
            items_add_up(waiting, limit, active, m, item);
            assert(v.push(one) =~= waiting + list);
        }
        assert(Seq::new(m, |i: int| active[i].id).push(active[n - 1].id) =~= ids);
        assert(w.take(waiting.len() as int) =~= v.take(waiting.len() as int));
        assert forall|i: int| 0 <= i < n implies (#[trigger] w[waiting.len() + i] == (
            Job::<P, M>::Item(active[i].id, item),
            item.bytes,
        ) || (w[waiting.len() + i] == (Job::<P, M>::End(active[i].id, End::Overflow), 0usize)
            && failed.contains(active[i].id))) by {
            if i < n - 1 {
                assert(w[waiting.len() + i] == v[waiting.len() + i]);
                if few.contains(active[i].id) {
                    let k = choose|k: int| 0 <= k < few.len() && few[k] == active[i].id;
                    assert(failed[k] == active[i].id);
                }
            } else if failed.len() > few.len() {
                assert(failed[few.len() as int] == active[i].id);
            }
        }
    } else {
        assert(waiting + list =~= waiting);
        assert(ids =~= Seq::<u64>::empty());
        assert(w.take(waiting.len() as int) =~= waiting);
    }
}

proof fn items_add_up<P, M>(
    waiting: Seq<(Job<P, M>, usize)>,
    limit: usize,
    active: Seq<Active>,
    n: nat,
    item: Arc<Item<P>>,
)
    requires
        n <= active.len(),
        queue::total(waiting) + n * item.bytes <= limit,
    ensures
        queue::total(fanned(waiting, limit, false, active, n, item).0) == queue::total(waiting) + n
            * item.bytes,
    decreases n,
{
    if n > 0 {
        assert(n * item.bytes == (n - 1) * item.bytes + item.bytes) by (nonlinear_arith)
            requires
                n > 0,
        ;
        items_add_up(waiting, limit, active, (n - 1) as nat, item);
        let v = fanned(waiting, limit, false, active, (n - 1) as nat, item).0;
        queue::total_with(v, (Job::<P, M>::Item(active[n - 1].id, item), item.bytes));
    } else {
        assert(0 * item.bytes == 0) by (nonlinear_arith);
    }
}

/// After an item has come, nothing is left that is older than the horizon reaches back
/// from it, and no more than 64 MiB; the item is the newest where there is room for it.
/// Where everything fits nothing counts as dropped.
pub proof fn rings_keep_the_recent_past<P>(s: Kept<P>, item: Arc<Item<P>>)
    requires
        !received(s, item).1,
        s.horizon >= 0,
        s.bytes == cost(s.items),
    ensures
        ({
            let kept = received(s, item).0;
            &&& kept.items.len() > 0 ==> kept.items[0].retained >= item.retained - s.horizon
            &&& kept.bytes <= 64 * 1024 * 1024
            &&& kept.bytes == cost(kept.items)
            &&& exists|n: int|
                0 <= n <= s.items.len() + 1 && kept.items == s.items.push(item).skip(n)
            &&& item.bytes <= 64 * 1024 * 1024 ==> kept.items.len() > 0 && kept.items.last()
                == item
            &&& s.bytes + item.bytes <= 64 * 1024 * 1024 ==> kept.dropped == s.dropped
            &&& kept.active == s.active && kept.recording_id == s.recording_id
        }),
{
    let all = Kept { items: s.items.push(item), bytes: s.bytes + item.bytes, ..s };
    let kept = received(s, item).0;
    cost_of_push(s.items, item);
    only_the_oldest_leave(all, item.retained);
    eviction_keeps_the_takes(all, item.retained);
    eviction_stops_at_the_newest(all, item.retained);
    if s.bytes + item.bytes <= 64 * 1024 * 1024 {
        nothing_is_dropped(all, item.retained);
    }
    let n = choose|n: int| 0 <= n <= all.items.len() && kept.items == all.items.skip(n);
    if kept.items.len() == 0 {
        assert(cost(kept.items) == 0);
    } else {
        assert(kept.items.last() == item);
    }
}

proof fn nothing_is_dropped<P>(s: Kept<P>, newest: i64)
    requires
        s.bytes == cost(s.items),
        s.bytes <= 64 * 1024 * 1024,
    ensures
        evicted(s, newest).0.dropped == s.dropped,
    decreases s.items.len(),
{
    if leaves(s, newest) {
        let old = s.items[0];
        let rest = Kept { items: s.items.drop_first(), ..s };
        if !overlong(s, old) {
            let next = Kept { bytes: s.bytes - old.bytes, ..remembered(rest, old) };
            cost_is_not_negative(s.items.drop_first());
            nothing_is_dropped(next, newest);
        }
    }
}

proof fn eviction_stops_at_the_newest<P>(s: Kept<P>, newest: i64)
    requires
        s.items.len() > 0,
        s.items.last().retained == newest,
        s.horizon >= 0,
        s.bytes == cost(s.items),
        !evicted(s, newest).1,
    ensures
        s.items.last().bytes <= 64 * 1024 * 1024 ==> evicted(s, newest).0.items.len() > 0,
    decreases s.items.len(),
{
    if leaves(s, newest) {
        let old = s.items[0];
        let rest = Kept { items: s.items.drop_first(), ..s };
        let next = Kept {
            dropped: if s.bytes > RING_BYTES {
                s.dropped + 1
            } else {
                s.dropped
            },
            bytes: s.bytes - old.bytes,
            ..remembered(rest, old)
        };
        if s.items.len() > 1 {
            assert(next.items.last() == s.items.last());
            eviction_stops_at_the_newest(next, newest);
        } else {
            assert(s.items.drop_first() =~= Seq::<Arc<Item<P>>>::empty());
            assert(cost(s.items.drop_first()) == 0);
            assert(old == s.items.last());
        }
    }
}

/// What leaves the ring is remembered: the last checkpoint that left is what a take begins
/// from, and every event and every block that left after it is a step behind it.
pub proof fn checkpoints_that_leave_are_remembered<P>(s: Kept<P>, newest: i64, j: int, i: int)
    requires
        !evicted(s, newest).1,
        0 <= j < s.items.len() - evicted(s, newest).0.items.len(),
        s.items[j].kind == Kind::Checkpoint,
        forall|k: int|
            j < k < s.items.len() - evicted(s, newest).0.items.len() ==> (
            #[trigger] s.items[k]).kind != Kind::Checkpoint,
    ensures
        evicted(s, newest).0.baseline == Some(s.items[j]),
        j < i < s.items.len() - evicted(s, newest).0.items.len() && (s.items[i].kind == Kind::Event
            || s.items[i].kind == Kind::Output) ==> evicted(s, newest).0.steps.contains(s.items[i]),
    decreases s.items.len(),
{
    if leaves(s, newest) {
        let old = s.items[0];
        let rest = Kept { items: s.items.drop_first(), ..s };
        let next = Kept {
            dropped: if s.bytes > RING_BYTES {
                s.dropped + 1
            } else {
                s.dropped
            },
            bytes: s.bytes - old.bytes,
            ..remembered(rest, old)
        };
        assert forall|k: int|
            j - 1 < k < next.items.len() - evicted(next, newest).0.items.len() implies (
        #[trigger] next.items[k]).kind != Kind::Checkpoint by {
            assert(next.items[k] == s.items[k + 1]);
        }
        if j > 0 {
            assert(next.items[j - 1] == s.items[j]);
            checkpoints_that_leave_are_remembered(next, newest, j - 1, i - 1);
            if j < i < s.items.len() {
                assert(next.items[i - 1] == s.items[i]);
            }
        } else {
            steps_are_remembered(next, newest, i - 1);
            if 0 < i < s.items.len() {
                assert(next.items[i - 1] == s.items[i]);
            }
        }
    }
}

proof fn steps_are_remembered<P>(s: Kept<P>, newest: i64, i: int)
    requires
        !evicted(s, newest).1,
        s.baseline is Some,
        forall|k: int|
            0 <= k < s.items.len() - evicted(s, newest).0.items.len() ==> (
            #[trigger] s.items[k]).kind != Kind::Checkpoint,
    ensures
        evicted(s, newest).0.baseline == s.baseline,
        forall|k: int|
            0 <= k < s.steps.len() ==> evicted(s, newest).0.steps.contains(#[trigger] s.steps[k]),
        0 <= i < s.items.len() - evicted(s, newest).0.items.len() && (s.items[i].kind == Kind::Event
            || s.items[i].kind == Kind::Output) ==> evicted(s, newest).0.steps.contains(s.items[i]),
    decreases s.items.len(),
{
    if leaves(s, newest) {
        let old = s.items[0];
        let rest = Kept { items: s.items.drop_first(), ..s };
        let next = Kept {
            dropped: if s.bytes > RING_BYTES {
                s.dropped + 1
            } else {
                s.dropped
            },
            bytes: s.bytes - old.bytes,
            ..remembered(rest, old)
        };
        only_the_oldest_leave(next, newest);
        assert forall|k: int|
            0 <= k < next.items.len() - evicted(next, newest).0.items.len() implies (
        #[trigger] next.items[k]).kind != Kind::Checkpoint by {
            assert(next.items[k] == s.items[k + 1]);
        }
        assert(s.items[0].kind != Kind::Checkpoint);
        steps_are_remembered(next, newest, i - 1);
        assert forall|k: int| 0 <= k < s.steps.len() implies evicted(
            s,
            newest,
        ).0.steps.contains(#[trigger] s.steps[k]) by {
            assert(next.steps[k] == s.steps[k]);
        }
        if i == 0 && (old.kind == Kind::Event || old.kind == Kind::Output) {
            assert(next.steps[s.steps.len() as int] == old);
        } else if 0 < i < s.items.len() {
            assert(next.items[i - 1] == s.items[i]);
        }
    } else {
        assert forall|k: int| 0 <= k < s.steps.len() implies evicted(
            s,
            newest,
        ).0.steps.contains(#[trigger] s.steps[k]) by {}
    }
}

/// What is counted of a take: each packet with its frames, those that were interrupted, by
/// the first flag, those without a time, by the third, and those that do not begin on the
/// device where the one before ended, as long as both have a time. The take begins at the
/// frame and at the time of its first packet and ends at that of its last.
pub proof fn packets_are_counted(t: Take, p: Packet)
    requires
        t.wf(),
        p.file + p.frames <= u64::MAX,
        p.device + p.frames <= u64::MAX,
        t.input_frames + p.frames <= u64::MAX,
        t.sequence < u64::MAX,
    ensures
        ({
            let next = with_packet(t, p);
            let timed = p.flags / 4 % 2 == 0;
            &&& next.sequence == t.sequence + 1
            &&& next.input_frames == t.input_frames + p.frames
            &&& next.discontinuities == t.discontinuities + p.flags % 2
            &&& next.bad_times == t.bad_times + p.flags / 4 % 2
            &&& next.gaps == t.gaps + if timed && t.previous_valid && p.device
                != t.previous_device {
                1int
            } else {
                0
            }
            &&& next.previous_device == p.device + p.frames
            &&& next.previous_valid == timed
            &&& next.raw_next == p.file + p.frames
            &&& next.raw_started
            &&& t.sequence == 0 ==> next.raw_base == p.file && next.first_audio == p.time
            &&& t.sequence > 0 ==> next.raw_base == t.raw_base && next.first_audio == t.first_audio
            &&& next.last_audio == p.time
            &&& next.output_frames == t.output_frames
            &&& next.save_raw == t.save_raw && next.bootstrap == t.bootstrap
        }),
        ({
            let note = packet_note(t, p);
            &&& note.packet_sequence == t.sequence
            &&& note.file_frame_start == t.input_frames
            &&& note.engine_frame_gap <==> t.sequence > 0 && p.file != t.raw_next
            &&& note.device_position_gap <==> p.flags / 4 % 2 == 0 && t.previous_valid && p.device
                != t.previous_device
        }),
{
}

/// A take that the end of the engine ends has failed exactly where an error ended the
/// engine; it says the reason, and when it was stopped if it was.
pub proof fn ends_say_why<P, M>(job: (Job<P, M>, usize), a: Active, reason: Seq<char>)
    requires
        shuts(job, a, reason),
    ensures
        job.0 matches Job::End(id, End::Shutdown { stop, failed, reason: why }) && id == a.id
            && stop == a.stop && why@ == reason && (failed <==> reason == "engine_error"@),
        job.1 == 0,
{
}

/// A job that is done leaves its take open, unless it ends it; one that failed closes it
/// and marks it as failed until its end.
pub proof fn jobs_settle_their_take(
    takes: Set<u64>,
    failures: Set<u64>,
    id: u64,
    is_end: bool,
    ok: bool,
)
    ensures
        ({
            let (left, failed) = after_job(takes, failures, id, is_end, ok);
            &&& !ok ==> !left.contains(id)
            &&& !ok && !is_end ==> failed.contains(id)
            &&& is_end ==> !failed.contains(id)
            &&& ok && !is_end ==> (left.contains(id) <==> takes.contains(id)) && (failed.contains(
                id,
            ) <==> failures.contains(id))
            &&& ok && is_end && !failures.contains(id) ==> !left.contains(id)
        }),
{
}

/// The bounds of the ring: 64 MiB in it, 8 MiB behind it, and half a second of tail.
pub proof fn rings_have_their_bounds<P>(ring: Ring<P>)
    requires
        ring.wf(),
    ensures
        ring@.bytes <= 64 * 1024 * 1024,
        ring@.step_bytes <= 8 * 1024 * 1024,
        ring@.bytes == cost(ring@.items),
{
}

/// The history that would grow beyond 8 MiB is refused, and only that.
pub proof fn long_histories_are_refused<P>(s: Kept<P>, old: Arc<Item<P>>)
    ensures
        overlong(s, old) <==> s.baseline is Some && (old.kind == Kind::Event || old.kind
            == Kind::Output) && s.step_bytes + old.step > 8 * 1024 * 1024,
{
}

/// A block of output is noted with the frame of the take that it was made of, and where it
/// stands in the output: each behind the one before it. One of audio from before the take is
/// not.
pub proof fn blocks_are_noted_where_they_stand(t: Take, first: u64, frames: u64)
    requires
        t.output_frames + frames <= u64::MAX,
    ensures
        block_note(t, first) is Some <==> t.raw_started && first >= t.raw_base,
        block_note(t, first) matches Some(n) ==> n.input_file_frame + t.raw_base == first
            && n.output_file_frame == t.output_frames,
        block_note(t, first) is Some ==> block_note(with_output(t, frames), first)
            ->0.output_file_frame == block_note(t, first)->0.output_file_frame + frames,
        with_output(t, frames).input_frames == t.input_frames && with_output(t, frames).raw_base
            == t.raw_base && with_output(t, frames).raw_started == t.raw_started,
{
}

/// What lies before the start of a take is as long as its first audio came before the start;
/// a take without audio, or whose audio came later, has none.
pub proof fn prerolls_end_at_the_start(t: Take, start: i64)
    ensures
        preroll(t, start) >= 0,
        t.first_audio < 0 || start <= t.first_audio ==> preroll(t, start) == 0,
        t.first_audio >= 0 && start > t.first_audio ==> t.first_audio + preroll(t, start) == start,
{
}

} // verus!
