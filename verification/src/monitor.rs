//! What is heard while recording: blocks of stereo audio that wait for their times.
//! Samples are bit patterns.
use std::collections::VecDeque;
use vstd::prelude::*;
use vstd::slice::slice_to_vec;

verus! {

/// How many frames may wait: one second.
pub const MONITOR_FRAMES: usize = 48000;

/// How long after its time a block is still heard, in nanoseconds.
pub const STALE_NS: i64 = 100_000_000;

/// A block cannot be heard.
#[derive(Clone, Copy, PartialEq, Eq, Structural, Debug)]
pub struct BadBlock;

/// Stereo audio from a time on, of which some frames have been heard.
#[derive(Debug)]
struct Block {
    samples: Vec<u32>,
    at: i64,
    cursor: usize,
}

/// A block by its contents.
#[verifier::ext_equal]
pub ghost struct Chunk {
    pub samples: Seq<u32>,
    pub at: i64,
    pub cursor: int,
}

impl Chunk {
    pub open spec fn frames(self) -> int {
        self.samples.len() as int / 2
    }

    /// The frames that have not been heard.
    pub open spec fn left(self) -> int {
        self.frames() - self.cursor
    }

    /// A block of whole frames that has not been heard to its end.
    pub open spec fn wf(self) -> bool {
        &&& self.samples.len() % 2 == 0
        &&& 0 <= self.cursor < self.frames()
        &&& self.frames() <= MONITOR_FRAMES
    }
}

/// The time of so many frames, in whole nanoseconds.
pub open spec fn span(frames: int) -> int {
    frames * 1_000_000_000 / 48000
}

/// The frames of all blocks that have not been heard.
pub open spec fn queued(blocks: Seq<Chunk>) -> int
    decreases blocks.len(),
{
    if blocks.len() == 0 {
        0
    } else {
        blocks[0].left() + queued(blocks.drop_first())
    }
}

/// What waits, and what has become of the rest.
#[verifier::ext_equal]
pub ghost struct Tape {
    pub blocks: Seq<Chunk>,
    pub delivered: int,
    pub dropped: int,
}

#[derive(Debug)]
pub struct Monitor {
    blocks: VecDeque<Block>,
    queued: usize,
    delivered: u64,
    dropped: u64,
}

spec fn chunk(b: Block) -> Chunk {
    Chunk { samples: b.samples@, at: b.at, cursor: b.cursor as int }
}

spec fn chunks(blocks: Seq<Block>) -> Seq<Chunk> {
    Seq::new(blocks.len(), |i: int| chunk(blocks[i]))
}

proof fn queued_is_not_negative(blocks: Seq<Chunk>)
    requires
        forall|i: int| 0 <= i < blocks.len() ==> (#[trigger] blocks[i]).wf(),
    ensures
        queued(blocks) >= blocks.len(),
    decreases blocks.len(),
{
    if blocks.len() > 0 {
        let rest = blocks.drop_first();
        assert forall|i: int| 0 <= i < rest.len() implies (#[trigger] rest[i]).wf() by {
            assert(blocks[i + 1].wf());
        }
        queued_is_not_negative(rest);
        assert(blocks[0].wf());
    }
}

proof fn queued_of_push(blocks: Seq<Chunk>, c: Chunk)
    ensures
        queued(blocks.push(c)) == queued(blocks) + c.left(),
    decreases blocks.len(),
{
    if blocks.len() > 0 {
        assert(blocks.push(c).drop_first() =~= blocks.drop_first().push(c));
        queued_of_push(blocks.drop_first(), c);
    } else {
        assert(blocks.push(c).drop_first() =~= blocks);
    }
}

/// The tape after the oldest blocks have made room for so many frames.
pub open spec fn roomy(t: Tape, frames: int) -> Tape
    decreases t.blocks.len(),
{
    if t.blocks.len() == 0 || queued(t.blocks) + frames <= MONITOR_FRAMES {
        t
    } else {
        roomy(Tape { blocks: t.blocks.drop_first(), dropped: t.dropped + 1, ..t }, frames)
    }
}

/// A block of whole frames, and of no more than may wait.
pub open spec fn can_wait(samples: Seq<u32>) -> bool {
    samples.len() % 2 == 0 && samples.len() as int / 2 <= MONITOR_FRAMES
}

/// The tape with a block behind the others, which have made room for it.
pub open spec fn pushed(t: Tape, samples: Seq<u32>, at: i64) -> Tape {
    let r = roomy(t, samples.len() as int / 2);
    Tape { blocks: r.blocks.push(Chunk { samples, at, cursor: 0 }), ..r }
}

/// A block that is too old to be heard at a time.
pub open spec fn is_stale(c: Chunk, at: int) -> bool {
    c.at + span(c.frames()) < at - STALE_NS
}

/// The tape after what is too old has gone.
pub open spec fn freshened(t: Tape, at: int) -> Tape
    decreases t.blocks.len(),
{
    if t.blocks.len() == 0 || !is_stale(t.blocks[0], at) {
        t
    } else {
        freshened(Tape { blocks: t.blocks.drop_first(), dropped: t.dropped + 1, ..t }, at)
    }
}

/// The frame that is heard at a time, or silence.
pub open spec fn heard(t: Tape, at: int) -> (u32, u32) {
    let f = freshened(t, at);
    if f.blocks.len() == 0 || f.blocks[0].at + span(f.blocks[0].cursor) > at {
        (0, 0)
    } else {
        let c = f.blocks[0];
        (c.samples[c.cursor * 2], c.samples[c.cursor * 2 + 1])
    }
}

/// The tape after a frame was heard.
pub open spec fn played(t: Tape, at: int) -> Tape {
    let f = freshened(t, at);
    if f.blocks.len() == 0 || f.blocks[0].at + span(f.blocks[0].cursor) > at {
        f
    } else {
        let c = Chunk { cursor: f.blocks[0].cursor + 1, ..f.blocks[0] };
        Tape {
            blocks: if c.cursor * 2 == c.samples.len() {
                f.blocks.drop_first()
            } else {
                f.blocks.update(0, c)
            },
            delivered: f.delivered + 1,
            ..f
        }
    }
}

/// The tape after `n` frames from a time on were heard.
pub open spec fn played_on(t: Tape, now: i64, n: nat) -> Tape
    decreases n,
{
    if n == 0 {
        t
    } else {
        played(played_on(t, now, (n - 1) as nat), now + span(n - 1))
    }
}

/// What is heard in the `n`th frame from a time on.
pub open spec fn heard_on(t: Tape, now: i64, n: nat) -> (u32, u32) {
    heard(played_on(t, now, n), now + span(n as int))
}

impl Monitor {
    /// What waits, and what has become of the rest.
    pub closed spec fn tape(&self) -> Tape {
        Tape {
            blocks: chunks(self.blocks@),
            delivered: self.delivered as int,
            dropped: self.dropped as int,
        }
    }

    /// Every block has frames left, what is counted is what waits, and no more than a
    /// second does.
    pub closed spec fn wf(&self) -> bool {
        &&& forall|i: int| 0 <= i < self.blocks@.len() ==> chunk(#[trigger] self.blocks@[i]).wf()
        &&& self.queued == queued(chunks(self.blocks@))
        &&& self.queued <= MONITOR_FRAMES
    }

    /// No more than a second waits.
    pub proof fn is_bounded(&self)
        requires
            self.wf(),
        ensures
            queued(self.tape().blocks) <= MONITOR_FRAMES,
            self.tape().blocks.len() <= MONITOR_FRAMES,
            forall|i: int| 0 <= i < self.tape().blocks.len() ==> (#[trigger] self.tape().blocks[i]).wf(),
    {
        let blocks = chunks(self.blocks@);
        assert forall|i: int| 0 <= i < blocks.len() implies (#[trigger] blocks[i]).wf() by {
            assert(chunk(self.blocks@[i]).wf());
        }
        queued_is_not_negative(blocks);
    }

    pub fn new() -> (m: Monitor)
        ensures
            m.wf(),
            m.tape() == (Tape { blocks: Seq::empty(), delivered: 0, dropped: 0 }),
    {
        let m = Monitor { blocks: VecDeque::new(), queued: 0, delivered: 0, dropped: 0 };
        assert(chunks(m.blocks@) =~= Seq::<Chunk>::empty());
        m
    }

    fn drop_oldest(&mut self)
        requires
            old(self).wf(),
            old(self).blocks@.len() > 0,
            old(self).dropped < u64::MAX,
        ensures
            final(self).wf(),
            final(self).tape() == (Tape {
                blocks: old(self).tape().blocks.drop_first(),
                dropped: old(self).tape().dropped + 1,
                ..old(self).tape()
            }),
    {
        let ghost before = chunks(self.blocks@);
        let ghost raw = self.blocks@;
        if let Some(block) = self.blocks.pop_front() {
            proof {
                assert(chunks(self.blocks@) =~= before.drop_first());
                assert(chunk(raw[0]).wf());
                assert forall|i: int| 0 <= i < self.blocks@.len() implies chunk(
                    #[trigger] self.blocks@[i],
                ).wf() by {
                    assert(self.blocks@[i] == raw[i + 1]);
                }
                assert forall|i: int| 0 <= i < before.drop_first().len() implies (#[trigger]
                before.drop_first()[i]).wf() by {
                    assert(chunk(raw[i + 1]).wf());
                }
                queued_is_not_negative(before.drop_first());
            }
            self.queued = self.queued - (block.samples.len() / 2 - block.cursor);
            self.dropped = self.dropped + 1;
        }
    }

    /// Lets a block wait for its time. The oldest blocks make room for it.
    pub fn push(&mut self, samples: &[u32], at: i64) -> (res: Result<(), BadBlock>)
        requires
            old(self).wf(),
            samples@.len() > 0,
            old(self).tape().dropped + MONITOR_FRAMES <= u64::MAX,
        ensures
            final(self).wf(),
            res is Ok <==> can_wait(samples@),
            final(self).tape() == (if can_wait(samples@) {
                pushed(old(self).tape(), samples@, at)
            } else {
                old(self).tape()
            }),
    {
        if samples.len() % 2 != 0 || samples.len() / 2 > MONITOR_FRAMES {
            return Err(BadBlock);
        }
        let frames: usize = samples.len() / 2;
        let ghost want = roomy(self.tape(), frames as int);
        proof {
            self.is_bounded();
        }
        while self.queued > MONITOR_FRAMES - frames && self.blocks.len() > 0
            invariant
                self.wf(),
                frames <= MONITOR_FRAMES,
                want == roomy(self.tape(), frames as int),
                self.dropped + self.blocks@.len() <= u64::MAX,
            decreases self.blocks@.len(),
        {
            self.drop_oldest();
        }
        proof {
            if self.blocks@.len() == 0 {
                assert(chunks(self.blocks@) =~= Seq::<Chunk>::empty());
            }
        }
        let ghost before = chunks(self.blocks@);
        let ghost raw = self.blocks@;
        self.queued = self.queued + frames;
        self.blocks.push_back(Block { samples: slice_to_vec(samples), at, cursor: 0 });
        proof {
            let c = Chunk { samples: samples@, at, cursor: 0 };
            queued_of_push(before, c);
            assert(chunks(self.blocks@) =~= before.push(c));
            assert forall|i: int| 0 <= i < self.blocks@.len() implies chunk(
                #[trigger] self.blocks@[i],
            ).wf() by {
                if i < raw.len() {
                    assert(self.blocks@[i] == raw[i]);
                }
            }
        }
        Ok(())
    }

    fn play(&mut self, at: i128) -> (frame: (u32, u32))
        requires
            old(self).wf(),
            i64::MIN <= at <= 2 * i64::MAX,
            old(self).delivered < u64::MAX,
            old(self).dropped + old(self).blocks@.len() <= u64::MAX,
        ensures
            final(self).wf(),
            final(self).tape() == played(old(self).tape(), at as int),
            frame == heard(old(self).tape(), at as int),
            final(self).delivered <= old(self).delivered + 1,
            final(self).dropped + final(self).blocks@.len() <= old(self).dropped + old(
                self,
            ).blocks@.len(),
    {
        let ghost fresh = freshened(self.tape(), at as int);
        loop
            invariant_except_break
                fresh == freshened(self.tape(), at as int),
            invariant
                self.wf(),
                i64::MIN <= at <= 2 * i64::MAX,
                fresh == freshened(old(self).tape(), at as int),
                self.delivered == old(self).delivered,
                self.dropped + self.blocks@.len() <= old(self).dropped + old(self).blocks@.len(),
                old(self).dropped + old(self).blocks@.len() <= u64::MAX,
            ensures
                fresh == self.tape(),
            decreases self.blocks@.len(),
        {
            if self.blocks.len() == 0 {
                break;
            }
            proof {
                assert(chunk(self.blocks@[0]).wf());
                assert(self.tape().blocks[0] == chunk(self.blocks@[0]));
            }
            let frames: usize = self.blocks[0].samples.len() / 2;
            let end: i128 = self.blocks[0].at as i128 + (frames as i128 * 1_000_000_000 / 48000);
            if end >= at - STALE_NS as i128 {
                break;
            }
            self.drop_oldest();
        }
        if self.blocks.len() == 0 {
            return (0, 0);
        }
        proof {
            assert(chunk(self.blocks@[0]).wf());
            assert(self.tape().blocks[0] == chunk(self.blocks@[0]));
        }
        let cursor: usize = self.blocks[0].cursor;
        let due: i128 = self.blocks[0].at as i128 + (cursor as i128 * 1_000_000_000 / 48000);
        if due > at {
            return (0, 0);
        }
        let left: u32 = self.blocks[0].samples[cursor * 2];
        let right: u32 = self.blocks[0].samples[cursor * 2 + 1];
        let ghost raw = self.blocks@;
        let ghost before = chunks(self.blocks@);
        proof {
            self.is_bounded();
            assert forall|i: int| 0 <= i < before.drop_first().len() implies (#[trigger]
            before.drop_first()[i]).wf() by {
                assert(chunk(raw[i + 1]).wf());
            }
            queued_is_not_negative(before.drop_first());
        }
        if let Some(mut block) = self.blocks.pop_front() {
            block.cursor = cursor + 1;
            self.queued = self.queued - 1;
            self.delivered = self.delivered + 1;
            let ended = block.cursor * 2 == block.samples.len();
            proof {
                assert(chunks(self.blocks@) =~= before.drop_first());
                assert forall|i: int| 0 <= i < self.blocks@.len() implies chunk(
                    #[trigger] self.blocks@[i],
                ).wf() by {
                    assert(self.blocks@[i] == raw[i + 1]);
                }
            }
            if !ended {
                let ghost c = chunk(block);
                let ghost short = self.blocks@;
                self.blocks.push_front(block);
                proof {
                    let after = chunks(self.blocks@);
                    assert(after =~= before.update(0, c));
                    assert(after.drop_first() =~= before.drop_first());
                    assert forall|i: int| 0 <= i < self.blocks@.len() implies chunk(
                        #[trigger] self.blocks@[i],
                    ).wf() by {
                        if i > 0 {
                            assert(self.blocks@[i] == short[i - 1]);
                        }
                    }
                }
            }
        }
        (left, right)
    }

    /// So many frames from a time on, silent where nothing is to be heard.
    pub fn fill(&mut self, count: usize, now: i64) -> (samples: Vec<u32>)
        requires
            old(self).wf(),
            count <= u32::MAX,
            old(self).tape().delivered + count <= u64::MAX,
            old(self).tape().dropped + MONITOR_FRAMES <= u64::MAX,
        ensures
            final(self).wf(),
            final(self).tape() == played_on(old(self).tape(), now, count as nat),
            samples@.len() == 2 * count,
            forall|i: int|
                0 <= i < count ==> (#[trigger] samples@[2 * i], samples@[2 * i + 1]) == heard_on(
                    old(self).tape(),
                    now,
                    i as nat,
                ),
    {
        let mut samples: Vec<u32> = Vec::new();
        let ghost start = self.tape();
        let mut i: usize = 0;
        proof {
            self.is_bounded();
        }
        while i < count
            invariant
                self.wf(),
                i <= count <= u32::MAX,
                self.tape() == played_on(start, now, i as nat),
                self.delivered <= start.delivered + i,
                start.delivered + count <= u64::MAX,
                self.dropped + self.blocks@.len() <= u64::MAX,
                samples@.len() == 2 * i,
                forall|k: int|
                    0 <= k < i ==> (#[trigger] samples@[2 * k], samples@[2 * k + 1]) == heard_on(
                        start,
                        now,
                        k as nat,
                    ),
            decreases count - i,
        {
            let at: i128 = now as i128 + (i as i128 * 1_000_000_000 / 48000);
            let (left, right) = self.play(at);
            let ghost had = samples@;
            samples.push(left);
            samples.push(right);
            proof {
                assert((samples@[2 * i as int], samples@[2 * i + 1]) == heard_on(
                    start,
                    now,
                    i as nat,
                ));
                assert forall|k: int| 0 <= k < i + 1 implies (
                    #[trigger] samples@[2 * k],
                    samples@[2 * k + 1],
                ) == heard_on(start, now, k as nat) by {
                    if k < i {
                        assert(samples@[2 * k] == had[2 * k]);
                        assert(samples@[2 * k + 1] == had[2 * k + 1]);
                    }
                }
            }
            i += 1;
        }
        samples
    }

    /// How many frames were heard, how many blocks were not, and how many frames wait.
    pub fn counts(&self) -> (res: (u64, u64, usize))
        requires
            self.wf(),
        ensures
            res.0 == self.tape().delivered,
            res.1 == self.tape().dropped,
            res.2 == queued(self.tape().blocks),
    {
        (self.delivered, self.dropped, self.queued)
    }
}

/// So many frames at 48 kHz take their time.
pub proof fn frames_take_their_time(frames: int)
    requires
        frames >= 0,
    ensures
        span(frames) * 48000 <= frames * 1_000_000_000 < (span(frames) + 1) * 48000,
{
}

/// Blocks wait where they are whole frames of no more than a second.
pub proof fn whole_frames_can_wait(samples: Seq<u32>)
    ensures
        can_wait(samples) <==> samples.len() % 2 == 0 && samples.len() <= 96000,
{
}

/// Room is made by the oldest blocks, each of which counts as one that was not heard; the
/// others stay, there is room, and no more go than must.
pub proof fn the_oldest_make_room(t: Tape, frames: int)
    requires
        0 <= frames <= 48000,
    ensures
        ({
            let r = roomy(t, frames);
            let gone = t.blocks.len() - r.blocks.len();
            &&& 0 <= gone <= t.blocks.len()
            &&& r.blocks == t.blocks.skip(gone)
            &&& r.dropped == t.dropped + gone
            &&& r.delivered == t.delivered
            &&& queued(r.blocks) + frames <= 48000
            &&& gone > 0 ==> queued(t.blocks.skip(gone - 1)) + frames > 48000
        }),
    decreases t.blocks.len(),
{
    if t.blocks.len() == 0 || queued(t.blocks) + frames <= 48000 {
        assert(t.blocks.skip(0) =~= t.blocks);
    } else {
        let next = Tape { blocks: t.blocks.drop_first(), dropped: t.dropped + 1, ..t };
        the_oldest_make_room(next, frames);
        let r = roomy(next, frames);
        let gone = t.blocks.len() - r.blocks.len();
        assert(r.blocks =~= t.blocks.skip(gone));
        if gone - 1 > 0 {
            assert(next.blocks.skip(gone - 2) =~= t.blocks.skip(gone - 1));
        } else {
            assert(t.blocks.skip(0) =~= t.blocks);
        }
    }
}

/// Blocks that ended more than a tenth of a second ago go unheard, each of which counts; the
/// first that did not stays, and so do all behind it.
pub proof fn old_blocks_go_unheard(t: Tape, at: int)
    ensures
        ({
            let r = freshened(t, at);
            let gone = t.blocks.len() - r.blocks.len();
            &&& 0 <= gone <= t.blocks.len()
            &&& r.blocks == t.blocks.skip(gone)
            &&& r.dropped == t.dropped + gone
            &&& r.delivered == t.delivered
            &&& forall|i: int|
                0 <= i < gone ==> (#[trigger] t.blocks[i]).at + span(t.blocks[i].frames())
                    + 100_000_000 < at
            &&& r.blocks.len() > 0 ==> at <= r.blocks[0].at + span(r.blocks[0].frames())
                + 100_000_000
        }),
    decreases t.blocks.len(),
{
    if t.blocks.len() == 0 || !is_stale(t.blocks[0], at) {
        assert(t.blocks.skip(0) =~= t.blocks);
    } else {
        let next = Tape { blocks: t.blocks.drop_first(), dropped: t.dropped + 1, ..t };
        old_blocks_go_unheard(next, at);
        let r = freshened(next, at);
        let gone = t.blocks.len() - r.blocks.len();
        assert(r.blocks =~= t.blocks.skip(gone));
        assert forall|i: int| 0 <= i < gone implies (#[trigger] t.blocks[i]).at + span(
            t.blocks[i].frames(),
        ) + 100_000_000 < at by {
            if i > 0 {
                assert(next.blocks[i - 1] == t.blocks[i]);
            }
        }
    }
}

/// A frame that is heard counts once and no longer waits; where none is heard there is
/// silence and nothing counts.
pub proof fn frames_are_heard_once(t: Tape, at: int)
    requires
        forall|i: int| 0 <= i < t.blocks.len() ==> (#[trigger] t.blocks[i]).wf(),
    ensures
        ({
            let f = freshened(t, at);
            let p = played(t, at);
            &&& p.delivered == t.delivered || p.delivered == t.delivered + 1
            &&& p.dropped == f.dropped
            &&& p.delivered == t.delivered ==> heard(t, at) == (0u32, 0u32) && p.blocks == f.blocks
            &&& p.delivered == t.delivered + 1 <==> f.blocks.len() > 0 && f.blocks[0].at + span(
                f.blocks[0].cursor,
            ) <= at
            &&& p.delivered == t.delivered + 1 ==> {
                &&& queued(p.blocks) == queued(f.blocks) - 1
                &&& heard(t, at).0 == f.blocks[0].samples[2 * f.blocks[0].cursor]
                &&& heard(t, at).1 == f.blocks[0].samples[2 * f.blocks[0].cursor + 1]
            }
        }),
{
    old_blocks_go_unheard(t, at);
    let f = freshened(t, at);
    if f.blocks.len() > 0 {
        assert(f.blocks[0] == t.blocks[t.blocks.len() - f.blocks.len()]);
        assert(f.blocks[0].wf());
        let c = Chunk { cursor: f.blocks[0].cursor + 1, ..f.blocks[0] };
        assert(f.blocks.update(0, c).drop_first() =~= f.blocks.drop_first());
    }
}

/// What was put in is heard: a block that waits alone, listened to from its time on, gives
/// its frames one after the other, left before right, until its end.
pub proof fn blocks_are_heard_from_their_time_on(t: Tape, samples: Seq<u32>, at: i64, n: nat)
    requires
        t.blocks.len() == 0,
        can_wait(samples),
        n < samples.len() / 2,
    ensures
        heard_on(pushed(t, samples, at), at, n) == (samples[2 * n as int], samples[2 * n as int + 1]),
        played_on(pushed(t, samples, at), at, n).delivered == t.delivered + n,
        played_on(pushed(t, samples, at), at, n).dropped == t.dropped,
{
    stays_alone(t, samples, at, n);
    let p = played_on(pushed(t, samples, at), at, n);
    assert(freshened(p, at + span(n as int)) == p);
}

proof fn stays_alone(t: Tape, samples: Seq<u32>, at: i64, n: nat)
    requires
        t.blocks.len() == 0,
        can_wait(samples),
        n < samples.len() / 2,
    ensures
        ({
            let p = played_on(pushed(t, samples, at), at, n);
            &&& p.blocks == seq![Chunk { samples, at, cursor: n as int }]
            &&& p.delivered == t.delivered + n
            &&& p.dropped == t.dropped
            &&& !is_stale(p.blocks[0], at + span(n as int))
        }),
    decreases n,
{
    assert(roomy(t, samples.len() as int / 2) == t);
    if n == 0 {
        assert(pushed(t, samples, at).blocks =~= seq![Chunk { samples, at, cursor: 0 }]);
    } else {
        stays_alone(t, samples, at, (n - 1) as nat);
        let p = played_on(pushed(t, samples, at), at, (n - 1) as nat);
        assert(freshened(p, at + span(n - 1)) == p);
        assert(p.blocks.update(0, Chunk { samples, at, cursor: n as int }) =~= seq![
            Chunk { samples, at, cursor: n as int },
        ]);
    }
}

} // verus!
