//! Things that wait for their times.
use std::collections::VecDeque;
use vstd::prelude::*;

verus! {

/// Something that waits for its time.
#[derive(Debug)]
pub struct Entry<T> {
    pub time: i64,
    pub sequence: u64,
    pub item: T,
}

/// What waits, in the order of the times, and of arrival where those are equal.
#[derive(Debug)]
pub struct Agenda<T> {
    entries: VecDeque<Entry<T>>,
    sequence: u64,
}

/// One entry comes before another.
pub open spec fn precedes<T>(a: Entry<T>, b: Entry<T>) -> bool {
    a.time < b.time || (a.time == b.time && a.sequence < b.sequence)
}

/// Entries in order, numbered below a bound.
pub open spec fn in_order<T>(entries: Seq<Entry<T>>, sequence: u64) -> bool {
    &&& forall|i: int, j: int|
        0 <= i < j < entries.len() ==> precedes(#[trigger] entries[i], #[trigger] entries[j])
    &&& forall|i: int| 0 <= i < entries.len() ==> (#[trigger] entries[i]).sequence < sequence
}

/// How many entries from a place on are no later than a time.
pub open spec fn until<T>(entries: Seq<Entry<T>>, time: i64, from: int) -> int
    decreases entries.len() - from,
{
    if from >= entries.len() || entries[from].time > time {
        from
    } else {
        until(entries, time, from + 1)
    }
}

/// What is no later than a time stands before what is.
pub proof fn until_parts<T>(entries: Seq<Entry<T>>, time: i64, from: int, sequence: u64)
    requires
        0 <= from <= entries.len(),
        in_order(entries, sequence),
    ensures
        from <= until(entries, time, from) <= entries.len(),
        forall|i: int|
            from <= i < until(entries, time, from) ==> (#[trigger] entries[i]).time <= time,
        forall|i: int|
            until(entries, time, from) <= i < entries.len() ==> (#[trigger] entries[i]).time > time,
    decreases entries.len() - from,
{
    if from < entries.len() && entries[from].time <= time {
        until_parts(entries, time, from + 1, sequence);
    } else if from < entries.len() {
        assert forall|i: int| from <= i < entries.len() implies (#[trigger] entries[i]).time > time by {
            if i > from {
                assert(precedes(entries[from], entries[i]));
            }
        }
    }
}

impl<T> Agenda<T> {
    /// What waits.
    pub closed spec fn waiting(&self) -> Seq<Entry<T>> {
        self.entries@
    }

    /// The number that the next one gets.
    pub closed spec fn next(&self) -> u64 {
        self.sequence
    }

    pub closed spec fn wf(&self) -> bool {
        in_order(self.entries@, self.sequence)
    }

    /// What waits is in order.
    pub proof fn is_ordered(&self)
        requires
            self.wf(),
        ensures
            in_order(self.waiting(), self.next()),
    {
    }

    pub fn new() -> (agenda: Agenda<T>)
        ensures
            agenda.wf(),
            agenda.waiting() == Seq::<Entry<T>>::empty(),
            agenda.next() == 0,
    {
        Agenda { entries: VecDeque::new(), sequence: 0 }
    }

    pub fn len(&self) -> (n: usize)
        ensures
            n == self.waiting().len(),
    {
        self.entries.len()
    }

    /// What stands at a place in the order.
    pub fn entry(&self, i: usize) -> (res: &Entry<T>)
        requires
            i < self.waiting().len(),
        ensures
            *res == self.waiting()[i as int],
    {
        &self.entries[i]
    }

    /// Lets something wait for its time, behind all that come no later.
    pub fn insert(&mut self, time: i64, item: T)
        requires
            old(self).wf(),
            old(self).next() < u64::MAX,
        ensures
            final(self).wf(),
            final(self).next() == old(self).next() + 1,
            final(self).waiting() == old(self).waiting().insert(
                until(old(self).waiting(), time, 0),
                Entry { time, sequence: old(self).next(), item },
            ),
    {
        let ghost before = self.entries@;
        let mut k: usize = self.entries.len();
        while k > 0 && self.entries[k - 1].time > time
            invariant
                k <= self.entries.len(),
                self.entries@ == before,
                forall|i: int| k <= i < before.len() ==> (#[trigger] before[i]).time > time,
            decreases k,
        {
            k -= 1;
        }
        let sequence: u64 = self.sequence;
        let entry = Entry { time, sequence, item };
        let ghost one = entry;
        proof {
            until_parts(before, time, 0, sequence);
            let want = until(before, time, 0);
            if want < k {
                assert(before[k - 1].time > time);
            } else if k < want {
                assert(before[k as int].time <= time);
            }
        }
        self.entries.insert(k, entry);
        self.sequence = sequence + 1;
        proof {
            let after = self.entries@;
            assert(after == before.insert(k as int, one));
            assert forall|i: int, j: int| 0 <= i < j < after.len() implies precedes(
                #[trigger] after[i],
                #[trigger] after[j],
            ) by {
                let p = if i < k {
                    i
                } else {
                    i - 1
                };
                let q = if j < k {
                    j
                } else {
                    j - 1
                };
                if i != k {
                    assert(after[i] == before[p]);
                }
                if j != k {
                    assert(after[j] == before[q]);
                }
                if i != k && j != k {
                    assert(precedes(before[p], before[q]));
                }
            }
            assert forall|i: int| 0 <= i < after.len() implies (#[trigger] after[i]).sequence
                < self.sequence by {
                if i < k {
                    assert(after[i] == before[i]);
                } else if i > k {
                    assert(after[i] == before[i - 1]);
                }
            }
        }
    }

    /// Takes the next one whose time has come.
    pub fn due(&mut self, at: i64) -> (res: Option<Entry<T>>)
        requires
            old(self).wf(),
        ensures
            final(self).wf(),
            final(self).next() == old(self).next(),
            (old(self).waiting().len() == 0 || old(self).waiting()[0].time > at) ==> res is None
                && final(self).waiting() == old(self).waiting(),
            (old(self).waiting().len() > 0 && old(self).waiting()[0].time <= at) ==> res == Some(
                old(self).waiting()[0],
            ) && final(self).waiting() == old(self).waiting().drop_first(),
    {
        if self.entries.len() == 0 || self.entries[0].time > at {
            return None;
        }
        let ghost before = self.entries@;
        let one = self.entries.pop_front();
        proof {
            assert(self.entries@ =~= before.drop_first());
            let after = self.entries@;
            assert forall|i: int, j: int| 0 <= i < j < after.len() implies precedes(
                #[trigger] after[i],
                #[trigger] after[j],
            ) by {
                assert(precedes(before[i + 1], before[j + 1]));
            }
            assert forall|i: int| 0 <= i < after.len() implies (#[trigger] after[i]).sequence
                < self.sequence by {
                assert(before[i + 1].sequence < self.sequence);
            }
        }
        one
    }
}

impl<T> Agenda<T> {
    /// The time of the next one.
    pub fn first(&self) -> (res: Option<i64>)
        ensures
            res == (if self.waiting().len() == 0 {
                None
            } else {
                Some(self.waiting()[0].time)
            }),
    {
        if self.entries.len() == 0 {
            None
        } else {
            Some(self.entries[0].time)
        }
    }
}

/// What waits comes out in the order of the times: of two that wait, the one that
/// comes first is not the later one, and arrived first where both have one time.
pub proof fn agenda_is_kept<T>(agenda: Agenda<T>, i: int, j: int)
    requires
        agenda.wf(),
        0 <= i < j < agenda.waiting().len(),
    ensures
        agenda.waiting()[i].time <= agenda.waiting()[j].time,
        agenda.waiting()[i].time == agenda.waiting()[j].time ==> agenda.waiting()[i].sequence
            < agenda.waiting()[j].sequence,
{
    agenda.is_ordered();
    assert(precedes(agenda.waiting()[i], agenda.waiting()[j]));
}

/// What is put in stands behind all that come no later and before all that come later; what
/// was there stays, in its order.
pub proof fn new_ones_stand_behind_what_is_no_later<T>(
    entries: Seq<Entry<T>>,
    sequence: u64,
    time: i64,
    item: T,
)
    requires
        in_order(entries, sequence),
    ensures
        ({
            let k = until(entries, time, 0);
            let after = entries.insert(k, Entry { time, sequence, item });
            &&& 0 <= k <= entries.len()
            &&& after[k] == (Entry { time, sequence, item })
            &&& forall|i: int| 0 <= i < k ==> #[trigger] after[i] == entries[i] && after[i].time
                <= time
            &&& forall|i: int|
                k < i < after.len() ==> #[trigger] after[i] == entries[i - 1] && after[i].time > time
        }),
{
    until_parts(entries, time, 0, sequence);
}

} // verus!
