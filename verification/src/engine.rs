//! The engine: what is done in each turn of its loop, whether the gain may change, and
//! how it ends.
use crate::bits::gain as is_gain;
use crate::bits;
use crate::json::Json;
use vstd::prelude::*;

verus! {

/// How long a packet waits for the events that belong to it, in nanoseconds.
pub const WAIT_NS: i64 = 100_000_000;

/// How often a checkpoint is kept, and how often the state is shown.
pub const CHECKPOINT_NS: i64 = 1_000_000_000;

pub const STATUS_NS: i64 = 250_000_000;

/// How many events a fixture may have.
pub const FIXTURE_EVENTS: usize = 200_000;

/// What becomes of a change of the gain.
#[derive(Clone, Copy, PartialEq, Eq, Structural, Debug)]
pub enum GainAction {
    /// Nobody waits for it any more.
    Ignore,
    /// A take is being made, or the engine ends.
    Refuse,
    Apply,
}

/// What becomes of a change of the gain.
pub open spec fn action_of(cancelled: bool, live: bool, locked: bool) -> GainAction {
    if cancelled {
        GainAction::Ignore
    } else if !live || locked {
        GainAction::Refuse
    } else {
        GainAction::Apply
    }
}

/// What becomes of a change of the gain. It is never applied after it was given up, and
/// never while it is locked.
pub fn gain_action(cancelled: bool, live: bool, locked: bool) -> (res: GainAction)
    ensures
        res == action_of(cancelled, live, locked),
{
    if cancelled {
        GainAction::Ignore
    } else if !live || locked {
        GainAction::Refuse
    } else {
        GainAction::Apply
    }
}

/// Why a change of the gain is not asked for.
#[derive(Clone, Copy, PartialEq, Eq, Structural, Debug)]
pub enum GainRequestError {
    /// It is not between -60 and 0 decibels.
    Range,
    /// The engine has stopped.
    Stopped,
}

/// Whether a change of the gain can be asked for.
pub open spec fn request_of(db: u64, finished: bool, cancelled: bool) -> Result<
    (),
    GainRequestError,
> {
    if !bits::down_to_minus(db, bits::SIXTY) {
        Err(GainRequestError::Range)
    } else if finished || cancelled {
        Err(GainRequestError::Stopped)
    } else {
        Ok(())
    }
}

/// Whether a change of the gain can be asked for.
pub fn gain_request(db: u64, finished: bool, cancelled: bool) -> (res: Result<(), GainRequestError>)
    ensures
        res == request_of(db, finished, cancelled),
{
    if !is_gain(db) {
        return Err(GainRequestError::Range);
    }
    if finished || cancelled {
        return Err(GainRequestError::Stopped);
    }
    Ok(())
}

/// The answer to a change of the gain, shared by who asks and who applies.
#[derive(Clone, Copy, PartialEq, Eq, Structural, Debug)]
pub struct GainReply {
    pub cancelled: bool,
    pub applied: Option<bool>,
}

/// The answer has been given.
pub open spec fn answered(r: GainReply, applied: bool) -> GainReply {
    GainReply { applied: Some(applied), ..r }
}

/// The answer has been taken, or the request was given up.
pub open spec fn collected(r: GainReply) -> GainReply {
    GainReply { cancelled: r.cancelled || r.applied is None, applied: None }
}

impl GainReply {
    pub fn new() -> (r: GainReply)
        ensures
            r == (GainReply { cancelled: false, applied: None }),
    {
        GainReply { cancelled: false, applied: None }
    }

    /// Who applies looks at the request.
    pub fn decide(&self, live: bool, locked: bool) -> (res: GainAction)
        ensures
            res == action_of(self.cancelled, live, locked),
    {
        gain_action(self.cancelled, live, locked)
    }

    /// Who applies says what came of it.
    pub fn answer(&mut self, applied: bool)
        ensures
            *final(self) == answered(*old(self), applied),
    {
        self.applied = Some(applied);
    }

    /// Who asks takes the answer, or gives the request up.
    pub fn collect(&mut self) -> (res: Option<bool>)
        ensures
            res == old(self).applied,
            *final(self) == collected(*old(self)),
    {
        match self.applied {
            Some(applied) => {
                self.applied = None;
                Some(applied)
            },
            None => {
                self.cancelled = true;
                None
            },
        }
    }
}

/// What was captured next.
#[derive(Clone, Copy, PartialEq, Eq, Structural, Debug)]
pub enum Captured {
    /// Nothing yet.
    Nothing,
    /// The format of what follows.
    Format,
    /// A packet that was recorded at a time.
    Packet(i64),
    /// The capture has ended.
    Done,
}

/// What is done in a turn, in this order: the packet that waits is processed, a
/// checkpoint is kept, the state is shown, the loop ends, or it rests.
#[derive(Clone, Copy, PartialEq, Eq, Structural, Debug)]
pub struct Turn {
    pub process: bool,
    pub checkpoint: bool,
    pub show: bool,
    pub end: bool,
    pub rest: bool,
}

/// The state of the loop: the time of the packet that waits, if one does, whether the
/// capture has ended, and when a checkpoint was kept and the state was shown last.
#[derive(Clone, Copy, PartialEq, Eq, Structural, Debug)]
pub struct Pace {
    pub pending: Option<i64>,
    pub capture_done: bool,
    pub last_checkpoint: i64,
    pub last_status: i64,
}

/// The packet that waits is processed: its events have had time to come, or the engine
/// ends.
pub open spec fn is_ripe(p: Pace, now: i64, cancelled: bool) -> bool {
    p.pending is Some && (cancelled || p.pending->0 + WAIT_NS <= now)
}

/// What is done in a turn.
pub open spec fn turn_of(p: Pace, now: i64, cancelled: bool) -> Turn {
    let process = is_ripe(p, now, cancelled);
    let waits = p.pending is Some && !process;
    Turn {
        process,
        checkpoint: now - p.last_checkpoint >= CHECKPOINT_NS,
        show: now - p.last_status >= STATUS_NS,
        end: p.capture_done && !waits,
        rest: waits,
    }
}

/// The state after a turn.
pub open spec fn after_turn(p: Pace, now: i64, cancelled: bool) -> Pace {
    let turn = turn_of(p, now, cancelled);
    Pace {
        pending: if turn.process {
            None
        } else {
            p.pending
        },
        last_checkpoint: if turn.checkpoint {
            now
        } else {
            p.last_checkpoint
        },
        last_status: if turn.show {
            now
        } else {
            p.last_status
        },
        ..p
    }
}

/// The state before the first turn.
pub open spec fn first_pace() -> Pace {
    Pace {
        pending: None,
        capture_done: false,
        last_checkpoint: (-CHECKPOINT_NS) as i64,
        last_status: (-STATUS_NS) as i64,
    }
}

/// The state after something was captured.
pub open spec fn after_capture(p: Pace, what: Captured) -> Pace {
    match what {
        Captured::Packet(at) => Pace { pending: Some(at), ..p },
        Captured::Done => Pace { capture_done: true, ..p },
        _ => p,
    }
}

impl Pace {
    /// A loop that keeps a checkpoint and shows its state in its first turn.
    pub fn new() -> (p: Pace)
        ensures
            p == first_pace(),
    {
        Pace {
            pending: None,
            capture_done: false,
            last_checkpoint: -CHECKPOINT_NS,
            last_status: -STATUS_NS,
        }
    }

    /// Whether to look for what was captured: only while no packet waits.
    pub fn wants(&self) -> (res: bool)
        ensures
            res == self.pending is None,
    {
        self.pending.is_none()
    }

    /// Something was captured.
    pub fn captured(&mut self, what: Captured)
        requires
            old(self).pending is None,
        ensures
            *final(self) == after_capture(*old(self), what),
    {
        match what {
            Captured::Packet(at) => {
                self.pending = Some(at);
            },
            Captured::Done => {
                self.capture_done = true;
            },
            _ => {},
        }
    }

    /// What is done in this turn.
    pub fn turn(&mut self, now: i64, cancelled: bool) -> (turn: Turn)
        ensures
            turn == turn_of(*old(self), now, cancelled),
            *final(self) == after_turn(*old(self), now, cancelled),
    {
        let process = match self.pending {
            Some(at) => cancelled || at as i128 + WAIT_NS as i128 <= now as i128,
            None => false,
        };
        if process {
            self.pending = None;
        }
        let checkpoint = now as i128 - self.last_checkpoint as i128 >= CHECKPOINT_NS as i128;
        if checkpoint {
            self.last_checkpoint = now;
        }
        let show = now as i128 - self.last_status as i128 >= STATUS_NS as i128;
        if show {
            self.last_status = now;
        }
        let waits = self.pending.is_some();
        let end = self.capture_done && !waits;
        Turn { process, checkpoint, show, end, rest: waits }
    }
}

/// No packet is lost when the loop ends: it ends only after the capture has, and with no
/// packet waiting.
pub proof fn loop_ends_empty(p: Pace, now: i64, cancelled: bool)
    requires
        turn_of(p, now, cancelled).end,
    ensures
        p.capture_done,
        after_turn(p, now, cancelled).pending is None,
{
}

/// Every packet is processed: once the engine is told to end, or a tenth of a second
/// after it was recorded, the packet that waits is processed in the next turn.
pub proof fn waiting_packets_are_processed(p: Pace, now: i64, cancelled: bool)
    requires
        p.pending is Some,
        cancelled || p.pending->0 + WAIT_NS <= now,
    ensures
        turn_of(p, now, cancelled).process,
        after_turn(p, now, cancelled).pending is None,
{
}

/// Whether the next event of a fixture is due: its time has come.
pub fn fixture_due(event: &Json, now: i64) -> (res: bool)
    ensures
        res == (event@.signed_at("receive_time_ns"@) is Some && event@.signed_at(
            "receive_time_ns"@,
        )->0 <= now),
{
    match event.signed_at("receive_time_ns") {
        Some(t) => t <= now,
        None => false,
    }
}

/// The first of the errors that occurred while the engine ended.
#[derive(Debug)]
pub struct Faults<E> {
    first: Option<E>,
}

impl<E> Faults<E> {
    pub closed spec fn first(&self) -> Option<E> {
        self.first
    }

    pub fn new(first: Option<E>) -> (f: Faults<E>)
        ensures
            f.first() == first,
    {
        Faults { first }
    }

    /// Something came of a step. Only the first error counts.
    pub fn note(&mut self, result: Result<(), E>)
        ensures
            final(self).first() == (match old(self).first() {
                Some(e) => Some(e),
                None => match result {
                    Ok(_) => None,
                    Err(e) => Some(e),
                },
            }),
    {
        if self.first.is_none() {
            if let Err(e) = result {
                self.first = Some(e);
            }
        }
    }

    /// How the engine ended, and why its takes end with it.
    pub fn outcome(&self) -> (res: (&'static str, &'static str))
        ensures
            res.0@ == (if self.first() is Some {
                "failed"@
            } else {
                "stopped"@
            }),
            res.1@ == (if self.first() is Some {
                "engine_error"@
            } else {
                "input_disabled"@
            }),
    {
        if self.first.is_some() {
            ("failed", "engine_error")
        } else {
            ("stopped", "input_disabled")
        }
    }

    /// The error that counts.
    pub fn into_first(self) -> (res: Option<E>)
        ensures
            res == self.first(),
    {
        self.first
    }
}

/// The peaks that are shown: none once the engine has stopped.
pub fn shown_levels(peaks: [u32; 3], finished: bool, cancelled: bool) -> (res: [u32; 3])
    ensures
        finished || cancelled ==> res@ == seq![0u32, 0, 0],
        !finished && !cancelled ==> res == peaks,
{
    if finished || cancelled {
        let silent: [u32; 3] = [0, 0, 0];
        assert(silent@ =~= seq![0u32, 0, 0]);
        silent
    } else {
        peaks
    }
}

/// A change of the gain is applied exactly where it was not given up, the engine is live and
/// the gain is not locked; where it was given up nobody is told.
pub proof fn gains_change_where_they_may(cancelled: bool, live: bool, locked: bool)
    ensures
        action_of(cancelled, live, locked) == GainAction::Apply <==> live && !cancelled && !locked,
        action_of(cancelled, live, locked) == GainAction::Ignore <==> cancelled,
        action_of(cancelled, live, locked) == GainAction::Refuse <==> !cancelled && (locked
            || !live),
{
}

/// A change of the gain can be asked for exactly where it is between 0 and -60 decibels and
/// the engine runs.
pub proof fn gains_are_asked_for_in_their_range(db: u64, finished: bool, cancelled: bool)
    ensures
        request_of(db, finished, cancelled) is Ok <==> !finished && !cancelled && (db == 0 || (
        0x8000_0000_0000_0000 <= db <= 0xc04e_0000_0000_0000)),
        request_of(db, finished, cancelled) == Err::<(), _>(GainRequestError::Range) <==> !(db == 0
            || 0x8000_0000_0000_0000 <= db <= 0xc04e_0000_0000_0000),
{
    bits::ranges_begin_at_zero(db, 0x404e_0000_0000_0000);
    bits::patterns_are_doubles(db);
}

/// An answer is taken once: what is given is what comes out, and who takes it finds nothing
/// the next time, which gives the request up for good.
pub proof fn answers_are_taken_once(r: GainReply, applied: bool, live: bool, locked: bool)
    ensures
        answered(r, applied).applied == Some(applied),
        answered(r, applied).cancelled == r.cancelled,
        collected(r).applied is None,
        collected(answered(r, applied)).cancelled == r.cancelled,
        r.applied is None ==> collected(r).cancelled,
        action_of(collected(collected(r)).cancelled, live, locked) == GainAction::Ignore,
{
}

/// What a turn does: the packet that waits is processed a tenth of a second after it was
/// recorded, or at once where the engine ends; a checkpoint is kept once a second and the
/// state shown four times a second; the loop rests while a packet waits, and ends when the
/// capture has.
pub proof fn turns_do_what_is_due(p: Pace, now: i64, cancelled: bool)
    ensures
        ({
            let t = turn_of(p, now, cancelled);
            let next = after_turn(p, now, cancelled);
            &&& p.pending is None ==> !t.process && !t.rest
            &&& p.pending matches Some(at) ==> (t.process <==> cancelled || now - at >= 100_000_000)
            &&& p.pending is Some ==> t.rest == !t.process
            &&& t.checkpoint <==> now - p.last_checkpoint >= 1_000_000_000
            &&& t.show <==> now - p.last_status >= 250_000_000
            &&& t.end <==> p.capture_done && !t.rest
            &&& t.process ==> next.pending is None
            &&& !t.process ==> next.pending == p.pending
            &&& t.checkpoint ==> next.last_checkpoint == now
            &&& !t.checkpoint ==> next.last_checkpoint == p.last_checkpoint
            &&& t.show ==> next.last_status == now
            &&& !t.show ==> next.last_status == p.last_status
            &&& next.capture_done == p.capture_done
        }),
{
}

/// The first turn keeps a checkpoint and shows the state, and processes nothing.
pub proof fn first_turns_keep_and_show(now: i64, cancelled: bool)
    requires
        now >= 0,
    ensures
        ({
            let t = turn_of(first_pace(), now, cancelled);
            t.checkpoint && t.show && !t.process && !t.end && !t.rest
        }),
{
}

/// A packet that was captured waits; the end of the capture is remembered; nothing else
/// changes.
pub proof fn captured_packets_wait(p: Pace, at: i64)
    requires
        p.pending is None,
    ensures
        after_capture(p, Captured::Packet(at)).pending == Some(at),
        after_capture(p, Captured::Packet(at)).capture_done == p.capture_done,
        after_capture(p, Captured::Done).capture_done,
        after_capture(p, Captured::Done).pending is None,
        after_capture(p, Captured::Nothing) == p,
        after_capture(p, Captured::Format) == p,
        after_capture(p, Captured::Done).last_checkpoint == p.last_checkpoint,
        after_capture(p, Captured::Packet(at)).last_checkpoint == p.last_checkpoint,
        after_capture(p, Captured::Done).last_status == p.last_status,
        after_capture(p, Captured::Packet(at)).last_status == p.last_status,
{
}

} // verus!
