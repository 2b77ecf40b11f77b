//! Sample peaks accumulated between reads of a display. Samples are the bit
//! patterns of singles; those of positive finite numbers order as the numbers do.
use crate::bits;
use crate::bits::{abs32, finite32};
use vstd::prelude::*;

verus! {

/// The largest magnitude since the last read, and when it was last added to.
#[derive(Clone, Copy, PartialEq, Eq, Structural, Debug)]
struct Peak {
    value: u32,
    updated: i64,
}

impl Peak {
    fn push(&mut self, value: u32, now: i64)
        ensures
            final(self).value == (if value > old(self).value {
                value
            } else {
                old(self).value
            }),
            final(self).updated == now,
    {
        if value > self.value {
            self.value = value;
        }
        self.updated = now;
    }

    fn take(&mut self, now: i64) -> (peak: u32)
        ensures
            peak == heard(old(self).value, old(self).updated, now),
            final(self).value == 0,
            final(self).updated == old(self).updated,
    {
        let peak: u32 = self.value;
        self.value = 0;
        if self.updated == 0 || now as i128 - self.updated as i128 > 250_000_000 {
            0
        } else {
            peak
        }
    }
}

/// What a read gives: silence where nothing was ever added, or not for a quarter of
/// a second.
pub open spec fn heard(value: u32, updated: i64, now: i64) -> u32 {
    if updated == 0 || now - updated > 250_000_000 {
        0
    } else {
        value
    }
}

/// The larger magnitude of the finite samples among the first `n` of a channel.
pub open spec fn channel_peak(samples: Seq<u32>, channels: int, selected: int, n: nat) -> u32
    decreases n,
{
    if n == 0 {
        0
    } else {
        let before = channel_peak(samples, channels, selected, (n - 1) as nat);
        let sample = samples[(n - 1) * channels + selected];
        if bits::is_finite32(sample) && bits::magnitude32(sample) > before {
            bits::magnitude32(sample) as u32
        } else {
            before
        }
    }
}

/// The peak of the selected channel in whole frames; none where there is no such
/// channel.
pub open spec fn selected_peak(samples: Seq<u32>, channels: int, selected: int) -> u32 {
    if channels == 0 || selected >= channels {
        0
    } else {
        channel_peak(samples, channels, selected, (samples.len() as int / channels) as nat)
    }
}

/// The peaks of the left and of the right channel.
pub open spec fn stereo_peaks(samples: Seq<u32>) -> (u32, u32) {
    (selected_peak(samples, 2, 0), selected_peak(samples, 2, 1))
}

/// The peak is the magnitude of no sample less than any finite sample's, and of
/// some sample unless it is zero.
pub proof fn channel_peak_is_the_largest(samples: Seq<u32>, channels: int, selected: int, n: nat)
    requires
        0 <= selected < channels,
    ensures
        bits::is_finite32(channel_peak(samples, channels, selected, n)),
        forall|i: int|
            0 <= i < n && bits::is_finite32(#[trigger] samples[i * channels + selected])
                ==> bits::magnitude32(samples[i * channels + selected]) <= channel_peak(
                samples,
                channels,
                selected,
                n,
            ),
        channel_peak(samples, channels, selected, n) == 0 || exists|i: int|
            0 <= i < n && bits::is_finite32(#[trigger] samples[i * channels + selected])
                && bits::magnitude32(samples[i * channels + selected]) == channel_peak(
                samples,
                channels,
                selected,
                n,
            ),
    decreases n,
{
    if n > 0 {
        channel_peak_is_the_largest(samples, channels, selected, (n - 1) as nat);
        let sample = samples[(n - 1) * channels + selected];
        let before = channel_peak(samples, channels, selected, (n - 1) as nat);
        if bits::is_finite32(sample) && bits::magnitude32(sample) > before {
        } else if before != 0 {
            let i = choose|i: int|
                0 <= i < n - 1 && bits::is_finite32(#[trigger] samples[i * channels + selected])
                    && bits::magnitude32(samples[i * channels + selected]) == before;
            assert(bits::is_finite32(samples[i * channels + selected]));
        }
    }
}

fn sample_peak(samples: &[u32], channels: usize, selected: usize) -> (peak: u32)
    requires
        selected < channels,
    ensures
        peak == selected_peak(samples@, channels as int, selected as int),
{
    let frames: usize = samples.len() / channels;
    let mut peak: u32 = 0;
    let mut i: usize = 0;
    let mut at: usize = selected;
    while i < frames
        invariant
            i <= frames,
            frames == samples.len() / channels,
            selected < channels,
            i < frames ==> at == i * channels + selected,
            peak == channel_peak(samples@, channels as int, selected as int, i as nat),
        decreases frames - i,
    {
        proof {
            let n = samples.len() as int;
            let c = channels as int;
            vstd::arithmetic::div_mod::lemma_fundamental_div_mod(n, c);
            assert((i + 1) * c <= c * frames) by (nonlinear_arith)
                requires
                    i + 1 <= frames,
                    c > 0,
            ;
            assert((i + 1) * c == i * c + c) by (nonlinear_arith);
        }
        let sample: u32 = samples[at];
        if finite32(sample) && abs32(sample) > peak {
            peak = abs32(sample);
        }
        i += 1;
        if i < frames {
            proof {
                let n = samples.len() as int;
                let c = channels as int;
                vstd::arithmetic::div_mod::lemma_fundamental_div_mod(n, c);
                assert((i + 1) * c <= c * frames) by (nonlinear_arith)
                    requires
                        i + 1 <= frames,
                        c > 0,
                ;
                assert((i + 1) * c == i * c + c) by (nonlinear_arith);
                assert(((i - 1) + 1) * c == (i - 1) * c + c) by (nonlinear_arith);
            }
            at = at + channels;
        }
    }
    peak
}

/// The peaks of the input and of both output channels since the last read.
#[derive(Clone, Copy, PartialEq, Eq, Structural, Debug)]
pub struct Levels {
    input: Peak,
    left: Peak,
    right: Peak,
}

/// A peak by its contents: the magnitude, and when it was last added to.
#[verifier::ext_equal]
pub ghost struct Level {
    pub value: u32,
    pub updated: i64,
}

impl Level {
    /// The level with a packet added.
    pub open spec fn with(self, value: u32, now: i64) -> Level {
        Level {
            value: if value > self.value {
                value
            } else {
                self.value
            },
            updated: now,
        }
    }

    /// The level after a read.
    pub open spec fn reset(self) -> Level {
        Level { value: 0, updated: self.updated }
    }

    pub open spec fn heard(self, now: i64) -> u32 {
        heard(self.value, self.updated, now)
    }
}

impl Levels {
    pub closed spec fn input_level(&self) -> Level {
        Level { value: self.input.value, updated: self.input.updated }
    }

    pub closed spec fn left_level(&self) -> Level {
        Level { value: self.left.value, updated: self.left.updated }
    }

    pub closed spec fn right_level(&self) -> Level {
        Level { value: self.right.value, updated: self.right.updated }
    }

    pub fn new() -> (levels: Levels)
        ensures
            levels.input_level() == (Level { value: 0, updated: 0 }),
            levels.left_level() == (Level { value: 0, updated: 0 }),
            levels.right_level() == (Level { value: 0, updated: 0 }),
    {
        let peak = Peak { value: 0, updated: 0 };
        Levels { input: peak, left: peak, right: peak }
    }

    /// Adds the selected capture channel, before gain or spatial processing.
    pub fn input(&mut self, samples: &[u32], channels: usize, selected: usize, now: i64)
        ensures
            final(self).input_level() == old(self).input_level().with(
                selected_peak(samples@, channels as int, selected as int),
                now,
            ),
            final(self).left_level() == old(self).left_level(),
            final(self).right_level() == old(self).right_level(),
    {
        let peak: u32 = if channels == 0 || selected >= channels {
            0
        } else {
            sample_peak(samples, channels, selected)
        };
        self.input.push(peak, now);
    }

    /// Adds interleaved output after gain and limiting.
    pub fn output(&mut self, samples: &[u32], now: i64)
        ensures
            final(self).left_level() == old(self).left_level().with(
                stereo_peaks(samples@).0,
                now,
            ),
            final(self).right_level() == old(self).right_level().with(
                stereo_peaks(samples@).1,
                now,
            ),
            final(self).input_level() == old(self).input_level(),
    {
        let left: u32 = sample_peak(samples, 2, 0);
        let right: u32 = sample_peak(samples, 2, 1);
        self.left.push(left, now);
        self.right.push(right, now);
    }

    /// Reads the linear peaks of input, left and right, and starts anew.
    pub fn take(&mut self, now: i64) -> (peaks: [u32; 3])
        ensures
            peaks@ == seq![
                old(self).input_level().heard(now),
                old(self).left_level().heard(now),
                old(self).right_level().heard(now),
            ],
            final(self).input_level() == old(self).input_level().reset(),
            final(self).left_level() == old(self).left_level().reset(),
            final(self).right_level() == old(self).right_level().reset(),
    {
        let input: u32 = self.input.take(now);
        let left: u32 = self.left.take(now);
        let right: u32 = self.right.take(now);
        let peaks: [u32; 3] = [input, left, right];
        assert(peaks@ =~= seq![input, left, right]);
        peaks
    }
}

/// A transient survives quiet packets: whatever was added since the last read, a
/// read within a quarter of a second gives the largest of it, and the next read
/// gives silence unless more is added.
pub proof fn transients_survive(level: Level, loud: u32, then: i64, quiet: u32, last: i64, now: i64)
    requires
        last != 0,
        now - last <= 250_000_000,
        quiet <= loud,
        level.value <= loud,
    ensures
        level.with(loud, then).with(quiet, last).heard(now) == loud,
        level.with(loud, then).with(quiet, last).reset().heard(now) == 0,
{
}

/// The peak of a channel is the largest magnitude of its finite samples in whole frames;
/// there is none where there is no such channel.
pub proof fn peaks_are_of_their_channel(samples: Seq<u32>, channels: int, selected: int, i: int)
    requires
        0 <= selected,
        0 <= channels,
    ensures
        selected >= channels ==> selected_peak(samples, channels, selected) == 0,
        selected < channels && 0 <= i && (i + 1) * channels <= samples.len() && bits::is_finite32(
            samples[i * channels + selected],
        ) ==> samples[i * channels + selected] % 0x8000_0000 <= selected_peak(
            samples,
            channels,
            selected,
        ),
        selected < channels && selected_peak(samples, channels, selected) != 0 ==> exists|k: int|
            0 <= k && (k + 1) * channels <= samples.len() && bits::is_finite32(
                #[trigger] samples[k * channels + selected],
            ) && samples[k * channels + selected] % 0x8000_0000 == selected_peak(
                samples,
                channels,
                selected,
            ),
{
    if selected < channels {
        let n = samples.len() as int / channels;
        let len = samples.len() as int;
        assert(n >= 0) by (nonlinear_arith)
            requires
                n == len / channels,
                len >= 0,
                channels > 0,
        ;
        channel_peak_is_the_largest(samples, channels, selected, n as nat);
        if 0 <= i && (i + 1) * channels <= samples.len() {
            assert(i < n) by (nonlinear_arith)
                requires
                    (i + 1) * channels <= len,
                    n == len / channels,
                    channels > 0,
            ;
            bits::patterns_are_singles(samples[i * channels + selected]);
        }
        if selected_peak(samples, channels, selected) != 0 {
            let k = choose|k: int|
                0 <= k < n && bits::is_finite32(#[trigger] samples[k * channels + selected])
                    && bits::magnitude32(samples[k * channels + selected]) == channel_peak(
                    samples,
                    channels,
                    selected,
                    n as nat,
                );
            assert((k + 1) * channels <= len) by (nonlinear_arith)
                requires
                    k < n,
                    n == len / channels,
                    channels > 0,
            ;
            bits::patterns_are_singles(samples[k * channels + selected]);
        }
    }
}

/// The left channel of the output is that of the even places, the right one that of the odd.
pub proof fn left_is_even_and_right_is_odd(samples: Seq<u32>, i: int)
    requires
        0 <= i,
        2 * i + 2 <= samples.len(),
    ensures
        bits::is_finite32(samples[2 * i]) ==> samples[2 * i] % 0x8000_0000 <= stereo_peaks(
            samples,
        ).0,
        bits::is_finite32(samples[2 * i + 1]) ==> samples[2 * i + 1] % 0x8000_0000 <= stereo_peaks(
            samples,
        ).1,
{
    peaks_are_of_their_channel(samples, 2, 0, i);
    peaks_are_of_their_channel(samples, 2, 1, i);
}

/// A level is read as silence where nothing was ever added to it, or not for more than a
/// quarter of a second; a read takes the level and not the time of what was added.
pub proof fn old_levels_are_silent(level: Level, value: u32, now: i64, later: i64)
    ensures
        level.updated == 0 ==> level.heard(now) == 0,
        now - level.updated > 250_000_000 ==> level.heard(now) == 0,
        level.updated != 0 && now - level.updated <= 250_000_000 ==> level.heard(now) == level.value,
        level.with(value, now).updated == now,
        level.with(value, now).value >= value && level.with(value, now).value >= level.value,
        level.with(value, now).value == value || level.with(value, now).value == level.value,
        level.reset().value == 0 && level.reset().updated == level.updated,
{
}

} // verus!
