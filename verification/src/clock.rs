//! The clock of a session: nanoseconds, and the ticks they are counted from.
use vstd::prelude::*;

verus! {

/// How many ticks a second has where the ticks are nanoseconds.
pub fn frequency() -> (f: i64)
    ensures
        f == 1_000_000_000,
{
    1_000_000_000
}

/// The ticks of a clock of nanoseconds that has run this long.
pub fn ticks(elapsed_ns: u128) -> (t: i64)
    requires
        elapsed_ns <= i64::MAX,
    ensures
        t == elapsed_ns,
{
    elapsed_ns as i64
}

/// The time at a tick, in whole nanoseconds.
pub open spec fn nanoseconds(ticks: int, frequency: int) -> int {
    ticks * 1_000_000_000 / frequency
}

/// The time at a tick, in whole nanoseconds.
pub fn now_ns(ticks: i64, frequency: i64) -> (ns: i64)
    requires
        ticks >= 0,
        frequency > 0,
        nanoseconds(ticks as int, frequency as int) <= i64::MAX,
    ensures
        ns == nanoseconds(ticks as int, frequency as int),
{
    proof {
        let t = ticks as int * 1_000_000_000;
        vstd::arithmetic::div_mod::lemma_div_pos_is_pos(t, frequency as int);
    }
    (ticks as i128 * 1_000_000_000 / frequency as i128) as i64
}

/// A clock of nanoseconds shows its ticks, and no clock runs backwards.
pub proof fn clock_never_runs_backwards(earlier: int, later: int, frequency: int)
    requires
        0 <= earlier <= later,
        frequency > 0,
    ensures
        0 <= nanoseconds(earlier, frequency) <= nanoseconds(later, frequency),
        nanoseconds(later, 1_000_000_000) == later,
{
    vstd::arithmetic::div_mod::lemma_div_pos_is_pos(earlier * 1_000_000_000, frequency);
    vstd::arithmetic::div_mod::lemma_div_is_ordered(
        earlier * 1_000_000_000,
        later * 1_000_000_000,
        frequency,
    );
    vstd::arithmetic::div_mod::lemma_div_by_multiple(later, 1_000_000_000);
}

/// The time at a tick is that of as many ticks of a second each, and no later.
pub proof fn seconds_have_their_ticks(ticks: int, frequency: int)
    requires
        0 <= ticks,
        frequency > 0,
    ensures
        nanoseconds(ticks, frequency) * frequency <= ticks * 1_000_000_000,
        ticks * 1_000_000_000 < (nanoseconds(ticks, frequency) + 1) * frequency,
{
    let t = ticks * 1_000_000_000;
    assert((t / frequency) * frequency <= t < (t / frequency + 1) * frequency) by (nonlinear_arith)
        requires
            frequency > 0,
    ;
}

} // verus!
