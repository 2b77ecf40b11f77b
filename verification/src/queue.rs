//! A bounded queue of sized items, closed once by its producer.
use std::collections::VecDeque;
use vstd::prelude::*;

verus! {

/// The sizes of a run of items, added up.
pub open spec fn total<T>(items: Seq<(T, usize)>) -> int
    decreases items.len(),
{
    if items.len() == 0 {
        0
    } else {
        items[0].1 + total(items.drop_first())
    }
}

proof fn total_is_not_negative<T>(items: Seq<(T, usize)>)
    ensures
        total(items) >= 0,
    decreases items.len(),
{
    if items.len() > 0 {
        total_is_not_negative(items.drop_first());
    }
}

proof fn total_of_push<T>(items: Seq<(T, usize)>, item: (T, usize))
    ensures
        total(items.push(item)) == total(items) + item.1,
    decreases items.len(),
{
    if items.len() > 0 {
        assert(items.push(item).drop_first() =~= items.drop_first().push(item));
        total_of_push(items.drop_first(), item);
    } else {
        assert(items.push(item).drop_first() =~= items);
    }
}

/// First in, first out. What waits is counted in bytes against a limit; terminal
/// items pass the limit, and nothing passes once the queue is closed.
pub struct Queue<T> {
    items: VecDeque<(T, usize)>,
    bytes: usize,
    closed: bool,
    limit: usize,
}

impl<T> Queue<T> {
    /// What waits, the oldest first, each with its size.
    pub closed spec fn waiting(&self) -> Seq<(T, usize)> {
        self.items@
    }

    pub closed spec fn is_closed(&self) -> bool {
        self.closed
    }

    pub closed spec fn limit(&self) -> usize {
        self.limit
    }

    /// The count of bytes is the total of what waits.
    pub closed spec fn wf(&self) -> bool {
        self.bytes == total(self.items@)
    }

    /// Whether an item would be taken.
    pub open spec fn admits(&self, bytes: usize, terminal: bool) -> bool {
        !self.is_closed() && (terminal || total(self.waiting()) + bytes <= self.limit())
    }

    pub fn new(limit: usize) -> (queue: Self)
        ensures
            queue.wf(),
            queue.waiting() == Seq::<(T, usize)>::empty(),
            !queue.is_closed(),
            queue.limit() == limit,
    {
        Queue { items: VecDeque::new(), bytes: 0, closed: false, limit }
    }

    /// Appends the item, or leaves the queue as it is and says so.
    pub fn push(&mut self, item: T, bytes: usize, terminal: bool) -> (accepted: bool)
        requires
            old(self).wf(),
            terminal && bytes > 0 ==> total(old(self).waiting()) + bytes <= usize::MAX,
        ensures
            final(self).wf(),
            final(self).limit() == old(self).limit(),
            final(self).is_closed() == old(self).is_closed(),
            accepted == old(self).admits(bytes, terminal),
            accepted ==> final(self).waiting() == old(self).waiting().push((item, bytes)),
            !accepted ==> final(self).waiting() == old(self).waiting(),
    {
        if self.closed {
            return false;
        }
        if !terminal && (bytes > self.limit || self.bytes > self.limit - bytes) {
            return false;
        }
        proof {
            total_of_push(self.items@, (item, bytes));
        }
        self.bytes = self.bytes + bytes;
        self.items.push_back((item, bytes));
        true
    }

    /// Takes the oldest item.
    pub fn pop(&mut self) -> (res: Option<T>)
        requires
            old(self).wf(),
        ensures
            final(self).wf(),
            final(self).limit() == old(self).limit(),
            final(self).is_closed() == old(self).is_closed(),
            res is Some <==> old(self).waiting().len() > 0,
            res matches Some(item) ==> item == old(self).waiting()[0].0 && final(self).waiting()
                == old(self).waiting().drop_first(),
            res is None ==> final(self).waiting() == old(self).waiting(),
    {
        let ghost was = self.items@;
        match self.items.pop_front() {
            Some((item, bytes)) => {
                proof {
                    total_is_not_negative(was.drop_first());
                    assert(self.items@ =~= was.drop_first());
                }
                self.bytes = self.bytes - bytes;
                Some(item)
            },
            None => None,
        }
    }

    /// Whether the queue is closed and everything has been taken.
    pub fn drained(&self) -> (res: bool)
        ensures
            res == (self.is_closed() && self.waiting().len() == 0),
    {
        self.closed && self.items.len() == 0
    }

    /// Refuses what comes after; what waits can still be taken.
    pub fn close(&mut self)
        requires
            old(self).wf(),
        ensures
            final(self).wf(),
            final(self).is_closed(),
            final(self).limit() == old(self).limit(),
            final(self).waiting() == old(self).waiting(),
    {
        self.closed = true;
    }

    /// The count of what waits, in bytes.
    pub fn bytes(&self) -> (res: usize)
        requires
            self.wf(),
        ensures
            res == total(self.waiting()),
    {
        self.bytes
    }
}

/// An item adds its bytes to what waits.
pub proof fn total_with<T>(items: Seq<(T, usize)>, item: (T, usize))
    ensures
        total(items.push(item)) == total(items) + item.1,
        total(Seq::<(T, usize)>::empty()) == 0,
{
    total_of_push(items, item);
}

/// The items that are taken, one after another, while nothing is put in.
pub open spec fn taken<T>(waiting: Seq<(T, usize)>, n: nat) -> Seq<T>
    decreases n,
{
    if n == 0 || waiting.len() == 0 {
        Seq::empty()
    } else {
        seq![waiting[0].0] + taken(waiting.drop_first(), (n - 1) as nat)
    }
}

/// First in, first out: the n-th item that is taken is the n-th that waited, and an item
/// that is put in comes after all of them.
pub proof fn first_in_first_out<T>(waiting: Seq<(T, usize)>, item: (T, usize))
    ensures
        taken(waiting, waiting.len()) == Seq::new(waiting.len(), |i: int| waiting[i].0),
        taken(waiting.push(item), waiting.len() + 1) == taken(waiting, waiting.len()).push(item.0),
    decreases waiting.len(),
{
    if waiting.len() > 0 {
        let rest = waiting.drop_first();
        first_in_first_out(rest, item);
        assert(waiting.push(item).drop_first() =~= rest.push(item));
        assert(taken(waiting, waiting.len()) =~= Seq::new(waiting.len(), |i: int| waiting[i].0));
        assert(taken(waiting.push(item), waiting.len() + 1) =~= taken(
            waiting,
            waiting.len(),
        ).push(item.0));
    } else {
        assert(taken(waiting, 0) =~= Seq::new(0, |i: int| waiting[i].0));
        reveal_with_fuel(taken, 2);
        assert(taken(waiting.push(item), 1) =~= taken(waiting, 0).push(item.0));
    }
}

/// What waits stays within the limit as long as only items that are not terminal are put
/// in, and such an item is refused exactly when it would go over it, or when the queue is
/// closed.
pub proof fn queue_is_bounded<T>(queue: Queue<T>, item: T, bytes: usize)
    requires
        total(queue.waiting()) <= queue.limit(),
    ensures
        queue.admits(bytes, false) ==> total(queue.waiting().push((item, bytes))) <= queue.limit(),
        queue.is_closed() ==> !queue.admits(bytes, false) && !queue.admits(bytes, true),
        !queue.is_closed() ==> queue.admits(bytes, true),
{
    total_of_push(queue.waiting(), (item, bytes));
}

/// A queue takes what fits into its limit beside what waits, and what ends it in any case;
/// once it is closed it takes nothing.
pub proof fn queues_take_what_fits<T>(queue: Queue<T>, bytes: usize)
    ensures
        queue.is_closed() ==> !queue.admits(bytes, true) && !queue.admits(bytes, false),
        !queue.is_closed() ==> queue.admits(bytes, true),
        !queue.is_closed() ==> (queue.admits(bytes, false) <==> bytes <= queue.limit() - total(
            queue.waiting(),
        )),
{
}

/// As many are taken as are asked for, or all that wait, in their order.
pub proof fn items_are_taken_in_order<T>(waiting: Seq<(T, usize)>, n: nat, i: int)
    ensures
        taken(waiting, n).len() <= n && taken(waiting, n).len() <= waiting.len(),
        taken(waiting, n).len() == n || taken(waiting, n).len() == waiting.len(),
        0 <= i < taken(waiting, n).len() ==> taken(waiting, n)[i] == waiting[i].0,
    decreases n,
{
    if n > 0 && waiting.len() > 0 {
        items_are_taken_in_order(waiting.drop_first(), (n - 1) as nat, i - 1);
    }
}

} // verus!
