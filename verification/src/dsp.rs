//! The policy of the binaural stream: which blocks it takes, how the distance fades
//! from block to block, and how its tail is drawn out. The filter itself is a library
//! outside; samples, gains and positions are bit patterns.
use crate::bits;
use crate::bits::{fraction, finite32, ONE};
use crate::math::Vec3;
use vstd::prelude::*;

verus! {

/// Why the stream refuses.
#[derive(Clone, Copy, PartialEq, Eq, Structural, Debug)]
pub enum DspError {
    /// Blocks of this size are not supported.
    UnsupportedBlock,
    /// The block has another size than the stream.
    BlockSize,
    /// The stream has been drawn out.
    Finished,
    /// The source stands nowhere, or where the listener does.
    Position,
    /// A sample of the input is not finite.
    Audio,
    /// A sample is not finite once the distance counts.
    Gain,
    /// A sample of the output is not finite.
    Output,
    /// A sample of the tail is not finite.
    Tail,
}

/// Where the stream stands.
#[derive(Clone, Copy, PartialEq, Eq, Structural, Debug)]
pub enum State {
    Accepting,
    Draining,
    Complete,
}

/// The stream, without the filter.
#[derive(Clone, Copy, PartialEq, Eq, Structural, Debug)]
pub struct Stream {
    pub block: usize,
    pub state: State,
    pub previous_gain: u64,
    pub has_input: bool,
}

/// What drawing out the tail takes next.
#[derive(Clone, Copy, PartialEq, Eq, Structural, Debug)]
pub enum Draw {
    /// Nothing: the tail is over.
    Over,
    /// One more block of silence through the filter.
    Silence,
    /// What the filter still holds.
    Rest,
}

/// A part of the tail: the interleaved samples of a whole block, how many of its
/// frames count, and whether it was the last.
#[derive(Debug)]
pub struct TailPart {
    pub samples: Vec<u32>,
    pub frames: usize,
    pub complete: bool,
}

pub open spec fn is_block(block: int) -> bool {
    block == 128 || block == 256 || block == 512 || block == 1024
}

/// All samples are finite.
pub open spec fn all_finite(samples: Seq<u32>) -> bool {
    forall|i: int| 0 <= i < samples.len() ==> bits::is_finite32(#[trigger] samples[i])
}

/// The first frames of two channels, interleaved, and silence after them.
pub open spec fn interleaved(left: Seq<u32>, right: Seq<u32>, frames: int) -> Seq<u32> {
    Seq::new(
        2 * left.len(),
        |i: int|
            if i / 2 >= frames {
                0u32
            } else if i % 2 == 0 {
                left[i / 2]
            } else {
                right[i / 2]
            },
    )
}

/// Whether all samples are finite.
pub fn samples_finite(samples: &[u32]) -> (res: bool)
    ensures
        res == all_finite(samples@),
{
    let mut i: usize = 0;
    while i < samples.len()
        invariant
            i <= samples.len(),
            forall|k: int| 0 <= k < i ==> bits::is_finite32(#[trigger] samples@[k]),
        decreases samples.len() - i,
    {
        if !finite32(samples[i]) {
            return false;
        }
        i += 1;
    }
    true
}

/// Interleaves two channels.
fn interleave(left: &[u32], right: &[u32], frames: usize) -> (out: Vec<u32>)
    requires
        left.len() == right.len(),
        frames <= left.len(),
    ensures
        out@ == interleaved(left@, right@, frames as int),
{
    let mut out: Vec<u32> = Vec::new();
    let mut i: usize = 0;
    while i < left.len()
        invariant
            i <= left.len(),
            left.len() == right.len(),
            out.len() == 2 * i,
            forall|k: int|
                0 <= k < 2 * i ==> #[trigger] out@[k] == interleaved(
                    left@,
                    right@,
                    frames as int,
                )[k],
        decreases left.len() - i,
    {
        if i < frames {
            out.push(left[i]);
            out.push(right[i]);
        } else {
            out.push(0);
            out.push(0);
        }
        i += 1;
    }
    assert(out@ =~= interleaved(left@, right@, frames as int));
    out
}

/// The stream after the silence, with so many frames still in the filter.
pub open spec fn after_silence(s: Stream, remaining: i32) -> Stream {
    Stream {
        state: if remaining <= 0 {
            State::Complete
        } else {
            State::Draining
        },
        ..s
    }
}

/// The stream after a block of its tail.
pub open spec fn after_rest(s: Stream, complete: bool) -> Stream {
    if complete {
        Stream { state: State::Complete, ..s }
    } else {
        s
    }
}

/// How many frames of a block of the tail count.
pub open spec fn tail_frames(block: usize, remaining: i32) -> int {
    if remaining < block {
        remaining as int
    } else {
        block as int
    }
}

impl Stream {
    pub open spec fn wf(self) -> bool {
        is_block(self.block as int)
    }

    /// A stream that has heard nothing.
    pub open spec fn fresh(block: usize) -> Stream {
        Stream { block, state: State::Accepting, previous_gain: ONE, has_input: false }
    }

    /// What stands against a block of input.
    pub open spec fn objection(
        self,
        input: Seq<u32>,
        output: int,
        position: Vec3,
        apart: bool,
    ) -> Option<DspError> {
        if input.len() != self.block || output != self.block * 2 {
            Some(DspError::BlockSize)
        } else if self.state != State::Accepting {
            Some(DspError::Finished)
        } else if !position.is_finite() || !apart {
            Some(DspError::Position)
        } else if !all_finite(input) {
            Some(DspError::Audio)
        } else {
            None
        }
    }

    pub fn new(block: usize) -> (res: Result<Stream, DspError>)
        ensures
            is_block(block as int) ==> res == Ok::<_, DspError>(Stream::fresh(block)),
            !is_block(block as int) ==> res == Err::<Stream, _>(DspError::UnsupportedBlock),
    {
        if block == 128 || block == 256 || block == 512 || block == 1024 {
            Ok(Stream { block, state: State::Accepting, previous_gain: ONE, has_input: false })
        } else {
            Err(DspError::UnsupportedBlock)
        }
    }

    /// Forgets everything but the size of the blocks.
    pub fn reset(&mut self)
        ensures
            *final(self) == Stream::fresh(old(self).block),
    {
        self.state = State::Accepting;
        self.previous_gain = ONE;
        self.has_input = false;
    }

    pub fn latency_frames(&self) -> (res: usize)
        ensures
            res == self.block / 4,
    {
        self.block / 4
    }

    /// Whether a block can go through the filter, and from which gain it fades to its
    /// own. `apart` is whether the source is some way off, at a distance that can be
    /// told.
    pub fn accept(
        &self,
        input: &[u32],
        output: usize,
        position: Vec3,
        apart: bool,
        gain: u64,
    ) -> (res: Result<u64, DspError>)
        requires
            self.wf(),
        ensures
            self.objection(input@, output as int, position, apart) matches Some(e) ==> res == Err::<
                u64,
                _,
            >(e),
            self.objection(input@, output as int, position, apart) is None ==> res == Ok::<
                _,
                DspError,
            >(fades_from(*self, gain)),
    {
        if input.len() != self.block || output != self.block * 2 {
            return Err(DspError::BlockSize);
        }
        if self.state != State::Accepting {
            return Err(DspError::Finished);
        }
        if !position.finite() || !apart {
            return Err(DspError::Position);
        }
        if !samples_finite(input) {
            return Err(DspError::Audio);
        }
        Ok(if self.has_input {
            self.previous_gain
        } else {
            gain
        })
    }

    /// Whether the samples can be filtered once the distance counts.
    pub fn faded(&self, mono: &[u32]) -> (res: Result<(), DspError>)
        ensures
            res == (if all_finite(mono@) {
                Ok(())
            } else {
                Err(DspError::Gain)
            }),
    {
        if samples_finite(mono) {
            Ok(())
        } else {
            Err(DspError::Gain)
        }
    }

    /// A block came out of the filter. Where it cannot be used, the stream starts
    /// again.
    pub fn processed(&mut self, gain: u64, left: &[u32], right: &[u32]) -> (res: Result<
        Vec<u32>,
        DspError,
    >)
        requires
            old(self).wf(),
            left.len() == old(self).block,
            right.len() == old(self).block,
        ensures
            final(self).wf(),
            res is Ok <==> all_finite(left@) && all_finite(right@),
            res matches Ok(out) ==> out@ == interleaved(left@, right@, left@.len() as int)
                && *final(self) == (Stream { previous_gain: gain, has_input: true, ..*old(self) }),
            res matches Err(e) ==> e == DspError::Output && *final(self) == Stream::fresh(
                old(self).block,
            ),
    {
        if !samples_finite(left) || !samples_finite(right) {
            self.reset();
            return Err(DspError::Output);
        }
        self.previous_gain = gain;
        self.has_input = true;
        Ok(interleave(left, right, left.len()))
    }

    /// What comes next of the tail. A stream that heard nothing has none.
    pub open spec fn draw_of(self) -> Draw {
        if !self.has_input || self.state == State::Complete {
            Draw::Over
        } else if self.state == State::Accepting {
            Draw::Silence
        } else {
            Draw::Rest
        }
    }

    /// Goes on to draw out the tail.
    pub fn draw(&mut self, output: usize) -> (res: Result<Draw, DspError>)
        requires
            old(self).wf(),
        ensures
            final(self).wf(),
            output != old(self).block * 2 ==> res == Err::<Draw, _>(DspError::BlockSize)
                && *final(self) == *old(self),
            output == old(self).block * 2 ==> res == Ok::<_, DspError>(old(self).draw_of())
                && *final(self) == (if old(self).draw_of() == Draw::Over {
                Stream { state: State::Complete, ..*old(self) }
            } else {
                *old(self)
            }),
    {
        if output != self.block * 2 {
            return Err(DspError::BlockSize);
        }
        if !self.has_input || self.state == State::Complete {
            self.state = State::Complete;
            return Ok(Draw::Over);
        }
        if self.state == State::Accepting {
            Ok(Draw::Silence)
        } else {
            Ok(Draw::Rest)
        }
    }

    /// The silence came out of the filter, which then holds so many frames.
    pub fn silenced(&mut self, left: &[u32], right: &[u32], remaining: i32) -> (res: Result<
        TailPart,
        DspError,
    >)
        requires
            old(self).wf(),
            old(self).draw_of() == Draw::Silence,
            left.len() == old(self).block,
            right.len() == old(self).block,
        ensures
            final(self).wf(),
            res is Ok <==> all_finite(left@) && all_finite(right@),
            res matches Ok(part) ==> part.samples@ == interleaved(
                left@,
                right@,
                left@.len() as int,
            ) && part.frames == old(self).block && part.complete == (remaining <= 0)
                && *final(self) == after_silence(*old(self), remaining),
            res matches Err(e) ==> e == DspError::Tail && *final(self) == Stream::fresh(
                old(self).block,
            ),
    {
        if !samples_finite(left) || !samples_finite(right) {
            self.reset();
            return Err(DspError::Tail);
        }
        let complete = remaining <= 0;
        self.state = if complete {
            State::Complete
        } else {
            State::Draining
        };
        Ok(TailPart { samples: interleave(left, right, left.len()), frames: left.len(), complete })
    }

    /// Whether the filter, which holds so many frames, is to give a block of them; else
    /// the tail is over.
    pub fn holds(&mut self, remaining: i32) -> (res: bool)
        requires
            old(self).wf(),
            old(self).draw_of() == Draw::Rest,
        ensures
            final(self).wf(),
            res == (remaining > 0),
            *final(self) == after_rest(*old(self), remaining <= 0),
    {
        if remaining <= 0 {
            self.state = State::Complete;
            return false;
        }
        true
    }

    /// A block of the tail came out of the filter, which held so many frames before.
    pub fn drawn(&mut self, left: &[u32], right: &[u32], remaining: i32, complete: bool) -> (res:
        Result<TailPart, DspError>)
        requires
            old(self).wf(),
            old(self).draw_of() == Draw::Rest,
            remaining > 0,
            left.len() == old(self).block,
            right.len() == old(self).block,
        ensures
            final(self).wf(),
            res is Ok <==> all_finite(left@) && all_finite(right@),
            res matches Ok(part) ==> part.frames == tail_frames(old(self).block, remaining) && part.samples@ == interleaved(left@, right@, part.frames as int) && part.complete
                == complete && *final(self) == after_rest(*old(self), complete),
            res matches Err(e) ==> e == DspError::Tail && *final(self) == Stream::fresh(
                old(self).block,
            ),
    {
        if !samples_finite(left) || !samples_finite(right) {
            self.reset();
            return Err(DspError::Tail);
        }
        let frames: usize = if (remaining as usize) < self.block {
            remaining as usize
        } else {
            self.block
        };
        if complete {
            self.state = State::Complete;
        }
        Ok(TailPart { samples: interleave(left, right, frames), frames, complete })
    }
}

/// A block that is handed to a stream, and what was computed of it outside: the samples
/// once the distance counts, and the two channels that the filter gave.
pub ghost struct Attempt {
    pub input: Seq<u32>,
    pub output: int,
    pub position: Vec3,
    pub apart: bool,
    pub gain: u64,
    pub mono: Seq<u32>,
    pub left: Seq<u32>,
    pub right: Seq<u32>,
}

/// A block is refused before it reaches the filter.
pub open spec fn is_refused(s: Stream, a: Attempt) -> bool {
    s.objection(a.input, a.output, a.position, a.apart) is Some || !all_finite(a.mono)
}

/// The stream after a block.
pub open spec fn after_block(s: Stream, a: Attempt) -> Stream {
    if is_refused(s, a) {
        s
    } else if all_finite(a.left) && all_finite(a.right) {
        Stream { previous_gain: a.gain, has_input: true, ..s }
    } else {
        Stream::fresh(s.block)
    }
}

/// The stream after a row of blocks.
pub open spec fn after_blocks(s: Stream, blocks: Seq<Attempt>) -> Stream
    decreases blocks.len(),
{
    if blocks.len() == 0 {
        s
    } else {
        after_block(after_blocks(s, blocks.drop_last()), blocks.last())
    }
}

/// The gain from which the next block fades to its own.
pub open spec fn fades_from(s: Stream, gain: u64) -> u64 {
    if s.has_input {
        s.previous_gain
    } else {
        gain
    }
}

/// A refused block leaves no trace: of two streams that were handed the same blocks, of
/// which one was then handed a block that it refused, the next block is taken or refused
/// by both for the same reason, and fades from the same gain in both.
pub proof fn refused_blocks_leave_no_trace(
    s: Stream,
    blocks: Seq<Attempt>,
    refused: Attempt,
    next: Attempt,
)
    requires
        is_refused(after_blocks(s, blocks), refused),
    ensures
        after_blocks(s, blocks.push(refused)) == after_blocks(s, blocks),
        is_refused(after_blocks(s, blocks.push(refused)), next) == is_refused(
            after_blocks(s, blocks),
            next,
        ),
        fades_from(after_blocks(s, blocks.push(refused)), next.gain) == fades_from(
            after_blocks(s, blocks),
            next.gain,
        ),
        after_blocks(s, blocks.push(refused).push(next)) == after_blocks(s, blocks.push(next)),
{
    assert(blocks.push(refused).drop_last() =~= blocks);
    assert(blocks.push(next).drop_last() =~= blocks);
    assert(blocks.push(refused).push(next).drop_last() =~= blocks.push(refused));
}

/// A stream whose tail is drawn refuses every block until it is reset. Once the tail is
/// over there is no more of it.
pub proof fn finished_streams_stay_finished(
    s: Stream,
    input: Seq<u32>,
    output: int,
    position: Vec3,
    apart: bool,
)
    requires
        s.wf(),
        s.state != State::Accepting,
    ensures
        s.objection(input, output, position, apart) is Some,
        s.state == State::Complete ==> s.draw_of() == Draw::Over,
        Stream::fresh(s.block).objection(input, output, position, apart) == (Stream {
            state: State::Accepting,
            ..s
        }).objection(input, output, position, apart),
{
}

/// Whether a level can be applied: to whole frames, and from one gain between nothing
/// and one to another.
pub fn is_level(samples: usize, from: u64, gain: u64) -> (res: bool)
    ensures
        res == (samples % 2 == 0 && bits::from_zero_to(from, ONE) && bits::from_zero_to(gain, ONE)),
{
    samples % 2 == 0 && fraction(gain) && fraction(from)
}

/// The left channel has the even places and the right one the odd ones; behind the frames
/// that count there is silence.
pub proof fn left_comes_before_right(left: Seq<u32>, right: Seq<u32>, frames: int, i: int)
    requires
        left.len() == right.len(),
        0 <= frames <= left.len(),
        0 <= i < left.len(),
    ensures
        interleaved(left, right, frames).len() == left.len() + right.len(),
        i < frames ==> interleaved(left, right, frames)[2 * i] == left[i] && interleaved(
            left,
            right,
            frames,
        )[2 * i + 1] == right[i],
        i >= frames ==> interleaved(left, right, frames)[2 * i] == 0 && interleaved(
            left,
            right,
            frames,
        )[2 * i + 1] == 0,
{
}

/// A block is taken exactly where it has the stream's size, and twice that for its output,
/// the stream still accepts, the source stands somewhere else than the listener, and all
/// samples are finite. The first of these that fails is the reason.
pub proof fn blocks_are_refused_for_one_reason(
    s: Stream,
    input: Seq<u32>,
    output: int,
    position: Vec3,
    apart: bool,
)
    ensures
        s.objection(input, output, position, apart) is None <==> {
            &&& input.len() == s.block && output == s.block + s.block
            &&& s.state is Accepting
            &&& apart && bits::is_finite(position.x) && bits::is_finite(position.y)
                && bits::is_finite(position.z)
            &&& forall|i: int| 0 <= i < input.len() ==> (#[trigger] input[i]) / 0x80_0000 % 256 != 255
        },
        input.len() != s.block || output != 2 * s.block ==> s.objection(
            input,
            output,
            position,
            apart,
        ) == Some(DspError::BlockSize),
        input.len() == s.block && output == 2 * s.block && !(s.state is Accepting) ==> s.objection(
            input,
            output,
            position,
            apart,
        ) == Some(DspError::Finished),
        input.len() == s.block && output == 2 * s.block && s.state is Accepting && !apart
            ==> s.objection(input, output, position, apart) == Some(DspError::Position),
        s.objection(input, output, position, apart) == Some(DspError::Audio) ==> !all_finite(input),
        s.objection(input, output, position, apart) == Some(DspError::Position) ==> !apart
            || !position.is_finite(),
{
    assert forall|i: int| 0 <= i < input.len() implies (bits::is_finite32(#[trigger] input[i]) <==>
        input[i] / 0x80_0000 % 256 != 255) by {
        bits::patterns_are_singles(input[i]);
    }
    if forall|i: int| 0 <= i < input.len() ==> (#[trigger] input[i]) / 0x80_0000 % 256 != 255 {
        assert(all_finite(input));
    }
}

/// Streams work in blocks of four sizes, and begin with nothing heard.
pub proof fn streams_begin_with_nothing(block: usize, gain: u64)
    ensures
        is_block(block as int) <==> block == 128 || block == 256 || block == 512 || block == 1024,
        ({
            let s = Stream::fresh(block);
            &&& s.block == block && s.state is Accepting && !s.has_input
            &&& s.draw_of() == Draw::Over
            &&& fades_from(s, gain) == gain
        }),
{
}

/// What was heard leaves a tail: one block of silence, the rest while the filter holds
/// frames, and an end after which there is no more. The first block fades from its own gain
/// and each later one from the gain before it.
pub proof fn tails_are_drawn_to_their_end(s: Stream, a: Attempt, gain: u64, remaining: i32)
    requires
        s.wf(),
        !is_refused(s, a),
        all_finite(a.left),
        all_finite(a.right),
    ensures
        ({
            let heard = after_block(s, a);
            let silent = after_silence(heard, remaining);
            &&& heard.draw_of() == Draw::Silence
            &&& fades_from(heard, gain) == a.gain
            &&& !s.has_input ==> fades_from(s, gain) == gain
            &&& remaining > 0 ==> silent.draw_of() == Draw::Rest
            &&& remaining <= 0 ==> silent.draw_of() == Draw::Over
            &&& after_rest(silent, true).draw_of() == Draw::Over
            &&& after_rest(silent, false) == silent
            &&& heard.block == s.block && silent.block == s.block
            &&& silent.has_input && silent.previous_gain == a.gain
        }),
{
}

/// Of a block of the tail as many frames count as the filter held, and no more than a block.
pub proof fn tails_are_no_longer_than_what_is_held(block: usize, remaining: i32)
    requires
        remaining > 0,
    ensures
        tail_frames(block, remaining) <= remaining,
        tail_frames(block, remaining) <= block,
        tail_frames(block, remaining) == remaining || tail_frames(block, remaining) == block,
{
}

} // verus!
