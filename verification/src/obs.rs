//! The sources inside a recording host: what the live source does when the host starts
//! and stops, what its panel offers, and how the replay source keeps time.
use crate::json::{copy, extended, Json, Tree};
use crate::text::same;
use vstd::prelude::*;

verus! {

broadcast use vstd::string::group_string_axioms;

/// What the host tells of.
#[derive(Clone, Copy, PartialEq, Eq, Structural, Debug)]
pub enum HostEvent {
    Exit,
    SceneCollectionCleanup,
    RecordingStarted,
    RecordingStopped,
    RecordingPaused,
    RecordingUnpaused,
    RecordingStopping,
    FinishedLoading,
    Other,
}

/// What the engine is told of.
#[derive(Clone, Copy, PartialEq, Eq, Structural, Debug)]
pub enum Notice {
    RecordingStarted,
    RecordingStopped,
    RecordingPaused,
    RecordingUnpaused,
    RecordingStopping,
    SourceInactive,
}

impl Notice {
    pub open spec fn called(self) -> Seq<char> {
        match self {
            Notice::RecordingStarted => "recording_started"@,
            Notice::RecordingStopped => "recording_stopped"@,
            Notice::RecordingPaused => "recording_paused"@,
            Notice::RecordingUnpaused => "recording_unpaused"@,
            Notice::RecordingStopping => "recording_stopping"@,
            Notice::SourceInactive => "source_inactive"@,
        }
    }

    /// The name of the event.
    pub fn name(self) -> (res: &'static str)
        ensures
            res@ == self.called(),
    {
        match self {
            Notice::RecordingStarted => "recording_started",
            Notice::RecordingStopped => "recording_stopped",
            Notice::RecordingPaused => "recording_paused",
            Notice::RecordingUnpaused => "recording_unpaused",
            Notice::RecordingStopping => "recording_stopping",
            Notice::SourceInactive => "source_inactive",
        }
    }
}

/// What is to be done about an event of the host.
#[derive(Clone, Copy, PartialEq, Eq, Structural, Debug)]
pub enum Reaction {
    Nothing,
    /// The engine is stopped.
    Stop,
    /// The engine is started, and a recording begins.
    Record,
    /// The engine is started, and joins a recording that runs.
    Begin,
    /// The engine is told.
    Tell(Notice),
}

/// The live source, without its engine.
#[derive(Clone, Copy, PartialEq, Eq, Structural, Debug)]
pub struct Source {
    /// Input is enabled.
    pub armed: bool,
    /// The source is shown.
    pub active: bool,
    /// The engine has been told that a recording began.
    pub recording: bool,
    /// The host is leaving.
    pub closing: bool,
}

/// What is done about an event, and how the source stands then.
pub open spec fn reacted(s: Source, event: HostEvent, shown: bool) -> (Reaction, Source) {
    if s.closing {
        (Reaction::Nothing, s)
    } else {
        match event {
            HostEvent::Exit => (Reaction::Stop, Source { closing: true, recording: false, ..s }),
            HostEvent::SceneCollectionCleanup => (Reaction::Stop, Source { recording: false, ..s }),
            HostEvent::RecordingStarted => if s.armed && shown {
                (Reaction::Record, s)
            } else {
                (Reaction::Nothing, s)
            },
            HostEvent::RecordingStopped => if s.recording {
                (Reaction::Tell(Notice::RecordingStopped), Source { recording: false, ..s })
            } else {
                (Reaction::Nothing, s)
            },
            HostEvent::RecordingPaused => if s.recording {
                (Reaction::Tell(Notice::RecordingPaused), s)
            } else {
                (Reaction::Nothing, s)
            },
            HostEvent::RecordingUnpaused => if s.recording {
                (Reaction::Tell(Notice::RecordingUnpaused), s)
            } else {
                (Reaction::Nothing, s)
            },
            HostEvent::RecordingStopping => if s.recording {
                (Reaction::Tell(Notice::RecordingStopping), s)
            } else {
                (Reaction::Nothing, s)
            },
            HostEvent::FinishedLoading => if s.armed && shown {
                (Reaction::Begin, Source { active: true, ..s })
            } else {
                (Reaction::Nothing, s)
            },
            HostEvent::Other => (Reaction::Nothing, s),
        }
    }
}

/// An engine is to be started: none runs, the host stays, and there is something to listen
/// to.
pub open spec fn can_start(s: Source, running: bool, fixture: bool, endpoint: Seq<char>) -> bool {
    !s.closing && !running && (fixture || endpoint.len() > 0)
}

/// Whether the engine is stopped for new settings, and how the source stands then.
pub open spec fn configured(s: Source, changed: bool, armed: bool) -> (bool, Source) {
    if changed || armed != s.armed {
        (true, Source { armed, recording: false, ..s })
    } else {
        (false, s)
    }
}

/// The engine is to run.
pub open spec fn wants(s: Source, host: bool, shown: bool) -> bool {
    host && s.armed && (s.active || shown)
}

/// Whether the engine is told of a recording, and how the source stands then.
pub open spec fn joined(s: Source, host_records: bool, running: bool) -> (bool, Source) {
    let tell = host_records && running && !s.recording;
    (tell, Source { recording: s.recording || tell, ..s })
}

/// Whether the engine is started for a source that is shown, and how it stands then.
pub open spec fn shown_again(s: Source, host: bool) -> (bool, Source) {
    (s.armed && host, Source { active: true, ..s })
}

/// What the engine is told of a source that is hidden, and how it stands then.
pub open spec fn hidden(s: Source) -> (Option<Notice>, Source) {
    (
        if s.recording {
            Some(Notice::SourceInactive)
        } else {
            None
        },
        Source { active: false, ..s },
    )
}

impl Source {
    pub fn new() -> (s: Source)
        ensures
            s == (Source { armed: false, active: false, recording: false, closing: false }),
    {
        Source { armed: false, active: false, recording: false, closing: false }
    }

    /// Whether an engine is to be started: none runs, the host stays, and there is
    /// something to listen to.
    pub fn may_start(&self, running: bool, fixture: bool, endpoint: &str) -> (res: bool)
        ensures
            res == can_start(*self, running, fixture, endpoint@),
    {
        !self.closing && !running && (fixture || endpoint.unicode_len() > 0)
    }

    /// The engine was stopped.
    pub fn stopped(&mut self)
        ensures
            *final(self) == (Source { recording: false, ..*old(self) }),
    {
        self.recording = false;
    }

    /// The settings were looked at; gives whether the engine is to be stopped because
    /// something changed.
    pub fn configure(&mut self, changed: bool, armed: bool) -> (restart: bool)
        ensures
            (restart, *final(self)) == configured(*old(self), changed, armed),
    {
        if changed || armed != self.armed {
            self.armed = armed;
            self.recording = false;
            return true;
        }
        false
    }

    /// Whether the engine is to run once the settings stand.
    pub fn wants_input(&self, host: bool, shown: bool) -> (res: bool)
        ensures
            res == wants(*self, host, shown),
    {
        host && self.armed && (self.active || shown)
    }

    /// Whether the engine is to be told of a recording that runs already.
    pub fn join(&mut self, host_records: bool, running: bool) -> (tell: bool)
        ensures
            (tell, *final(self)) == joined(*old(self), host_records, running),
    {
        if host_records && running && !self.recording {
            self.recording = true;
            return true;
        }
        false
    }

    /// Whether the engine is to be told that a recording begins.
    pub fn record(&mut self) -> (tell: bool)
        ensures
            (tell, *final(self)) == joined(*old(self), true, true),
    {
        let tell = !self.recording;
        self.recording = true;
        tell
    }

    /// The source is shown; gives whether the engine is to be started.
    pub fn activated(&mut self, host: bool) -> (start: bool)
        ensures
            (start, *final(self)) == shown_again(*old(self), host),
    {
        self.active = true;
        self.armed && host
    }

    /// The source is hidden; gives what the engine is told.
    pub fn deactivated(&mut self) -> (tell: Option<Notice>)
        ensures
            (tell, *final(self)) == hidden(*old(self)),
    {
        self.active = false;
        if self.recording {
            Some(Notice::SourceInactive)
        } else {
            None
        }
    }

    /// The host tells of something.
    pub fn on_event(&mut self, event: HostEvent, shown: bool) -> (what: Reaction)
        ensures
            (what, *final(self)) == reacted(*old(self), event, shown),
    {
        if self.closing {
            return Reaction::Nothing;
        }
        match event {
            HostEvent::Exit => {
                self.closing = true;
                self.recording = false;
                Reaction::Stop
            },
            HostEvent::SceneCollectionCleanup => {
                self.recording = false;
                Reaction::Stop
            },
            HostEvent::RecordingStarted => if self.armed && shown {
                Reaction::Record
            } else {
                Reaction::Nothing
            },
            HostEvent::RecordingStopped => if self.recording {
                self.recording = false;
                Reaction::Tell(Notice::RecordingStopped)
            } else {
                Reaction::Nothing
            },
            HostEvent::RecordingPaused => if self.recording {
                Reaction::Tell(Notice::RecordingPaused)
            } else {
                Reaction::Nothing
            },
            HostEvent::RecordingUnpaused => if self.recording {
                Reaction::Tell(Notice::RecordingUnpaused)
            } else {
                Reaction::Nothing
            },
            HostEvent::RecordingStopping => if self.recording {
                Reaction::Tell(Notice::RecordingStopping)
            } else {
                Reaction::Nothing
            },
            HostEvent::FinishedLoading => if self.armed && shown {
                self.active = true;
                Reaction::Begin
            } else {
                Reaction::Nothing
            },
            HostEvent::Other => Reaction::Nothing,
        }
    }
}

/// Nothing the host tells of starts or tells a source once the host is leaving.
pub proof fn leaving_host_is_ignored(s: Source, event: HostEvent, shown: bool, next: HostEvent)
    ensures
        s.closing ==> reacted(s, event, shown) == (Reaction::Nothing, s),
        !s.closing && event == HostEvent::Exit ==> reacted(
            reacted(s, event, shown).1,
            next,
            shown,
        ).0 == Reaction::Nothing,
{
}

/// The engine is told of a pause, of its end or of the end of a recording only while a
/// recording runs, and of the end only once.
pub proof fn recordings_end_once(s: Source, event: HostEvent, shown: bool, later: HostEvent)
    ensures
        reacted(s, event, shown).0 is Tell ==> s.recording,
        reacted(s, event, shown).0 == Reaction::Tell(Notice::RecordingStopped) ==> !(reacted(
            reacted(s, event, shown).1,
            later,
            shown,
        ).0 is Tell),
{
}

/// The settings of the live source; those of a synthetic source, which has to be an
/// object, come before them.
pub fn live_config(base: &Json, fixture: Option<&Json>) -> (res: Option<Json>)
    requires
        base@ is Object,
    ensures
        fixture is None ==> res is Some && res->0@ == base@,
        fixture is Some ==> (res is Some <==> fixture->0@ is Object),
        fixture is Some && res is Some ==> res->0@ is Object && forall|key: Seq<char>| #[trigger]
            res->0@.get(key) == (if fixture->0@.get(key) is Some {
                fixture->0@.get(key)
            } else {
                base@.get(key)
            }),
{
    match fixture {
        Some(more) => extended(base, more),
        None => Some(copy(base)),
    }
}

/// What the panel of the live source offers. A button that is there says whether it
/// can be pressed.
#[derive(Clone, Copy, PartialEq, Eq, Structural, Debug)]
pub struct Panel {
    /// The switch of the input.
    pub input: bool,
    pub start: Option<bool>,
    pub stop: Option<bool>,
    pub reconnect: Option<bool>,
    /// Whether the last recording can be listened to.
    pub listen: bool,
    /// Whether the settings can be changed.
    pub fields: bool,
}

/// The panel.
pub open spec fn panel_of(host: bool, running: bool, recording: bool, has_audio: bool) -> Panel {
    if host {
        Panel {
            input: true,
            start: None,
            stop: None,
            reconnect: Some(!running),
            listen: has_audio,
            fields: !recording,
        }
    } else {
        Panel {
            input: false,
            start: Some(!running),
            stop: Some(running),
            reconnect: None,
            listen: has_audio,
            fields: !running,
        }
    }
}

/// The panel. Under a host that records, the input has a switch and can be connected
/// again, and the settings rest while a recording runs; elsewhere the source is
/// started and stopped here, and the settings rest while it runs.
pub fn panel(host: bool, running: bool, recording: bool, has_audio: bool) -> (p: Panel)
    ensures
        p == panel_of(host, running, recording, has_audio),
{
    if host {
        Panel {
            input: true,
            start: None,
            stop: None,
            reconnect: Some(!running),
            listen: has_audio,
            fields: !recording,
        }
    } else {
        Panel {
            input: false,
            start: Some(!running),
            stop: Some(running),
            reconnect: None,
            listen: has_audio,
            fields: !running,
        }
    }
}

/// What the panel says of the engine, as it was last seen.
pub open spec fn status_of(info: Tree) -> Seq<char> {
    (match info.text_at("message"@) {
        Some(s) => s,
        None => "入力待機中"@,
    }) + "\n"@ + (match info.text_at("archive_error"@) {
        Some(s) => s,
        None => ""@,
    })
}

/// What the panel says of the engine.
pub fn status_text(info: &Json) -> (res: String)
    ensures
        res@ == status_of(info@),
{
    let mut res = match info.text_at("message") {
        Some(s) => s.as_str().to_owned(),
        None => "入力待機中".to_owned(),
    };
    res.append("\n");
    match info.text_at("archive_error") {
        Some(s) => res.append(s.as_str()),
        None => res.append(""),
    }
    res
}

/// Where the last recording lies, if there was one.
pub fn last_directory(info: &Json) -> (res: Option<String>)
    ensures
        res matches Some(s) ==> info@.text_at("last_directory"@) == Some(s@) && s@.len() > 0,
        res is None ==> match info@.text_at("last_directory"@) {
            Some(s) => s.len() == 0,
            None => true,
        },
{
    match info.text_at("last_directory") {
        Some(s) => if s.as_str().unicode_len() > 0 {
            Some(s.as_str().to_owned())
        } else {
            None
        },
        None => None,
    }
}

/// Whether the engine or what it archives has failed.
pub fn has_failed(info: &Json) -> (res: bool)
    ensures
        res == (info@.text_at("state"@) == Some("failed"@) || info@.text_at("archive_state"@)
            == Some("failed"@)),
{
    let state = match info.text_at("state") {
        Some(s) => same(s.as_str(), "failed"),
        None => false,
    };
    let archive = match info.text_at("archive_state") {
        Some(s) => same(s.as_str(), "failed"),
        None => false,
    };
    state || archive
}

/// Where the replay source stands.
#[derive(Clone, Copy, PartialEq, Eq, Structural, Debug)]
pub enum Media {
    Stopped,
    Opening,
    Playing,
    Paused,
    Ended,
    Failed,
}

/// The replay source, without the thread that plays. Positions are frames.
#[derive(Clone, Copy, PartialEq, Eq, Structural, Debug)]
pub struct Player {
    pub state: Media,
    pub paused: bool,
    pub cancelled: bool,
    pub cursor: u64,
    pub duration: u64,
}

/// Whether the replay is started anew instead of going on, and how it stands then.
pub open spec fn held(p: Player, pause: bool) -> (bool, Player) {
    if !pause && p.state != Media::Playing && p.state != Media::Paused && p.state
        != Media::Opening {
        (true, p)
    } else {
        (
            false,
            Player {
                paused: pause,
                state: if pause {
                    Media::Paused
                } else {
                    Media::Playing
                },
                ..p
            },
        )
    }
}

/// Whether a recording that was opened is played, and how the replay stands then.
pub open spec fn opened(p: Player, frames: u64) -> (bool, Player) {
    if p.cancelled {
        (false, p)
    } else {
        (true, Player { state: Media::Playing, duration: frames, ..p })
    }
}

/// Whether anyone is told of the end, and how the replay stands then.
pub open spec fn ended(p: Player, well: bool) -> (bool, Player) {
    if p.cancelled {
        (false, p)
    } else {
        (
            true,
            Player {
                state: if well {
                    Media::Ended
                } else {
                    Media::Failed
                },
                ..p
            },
        )
    }
}

/// So many frames at 48 kHz, in whole milliseconds.
pub open spec fn in_ms(frames: u64) -> u64 {
    frames / 48
}

impl Player {
    pub fn new() -> (p: Player)
        ensures
            p == (Player {
                state: Media::Stopped,
                paused: false,
                cancelled: false,
                cursor: 0,
                duration: 0,
            }),
    {
        Player { state: Media::Stopped, paused: false, cancelled: false, cursor: 0, duration: 0 }
    }

    /// The thread has been stopped.
    pub fn stop(&mut self)
        ensures
            *final(self) == (Player {
                state: Media::Stopped,
                paused: false,
                cancelled: true,
                cursor: 0,
                duration: old(self).duration,
            }),
    {
        self.cancelled = true;
        self.paused = false;
        self.state = Media::Stopped;
        self.cursor = 0;
    }

    /// A thread is started, from the beginning.
    pub fn start(&mut self)
        ensures
            *final(self) == (Player {
                state: Media::Opening,
                paused: false,
                cancelled: false,
                cursor: 0,
                duration: 0,
            }),
    {
        self.cancelled = false;
        self.paused = false;
        self.state = Media::Opening;
        self.cursor = 0;
        self.duration = 0;
    }

    /// Pauses or goes on; gives whether it has to be started instead, because there is
    /// nothing to go on with.
    pub fn pause(&mut self, pause: bool) -> (restart: bool)
        ensures
            (restart, *final(self)) == held(*old(self), pause),
    {
        if !pause && self.state != Media::Playing && self.state != Media::Paused && self.state
            != Media::Opening {
            return true;
        }
        self.paused = pause;
        self.state = if pause {
            Media::Paused
        } else {
            Media::Playing
        };
        false
    }

    /// Another recording was chosen, and the thread has been stopped.
    pub fn chosen(&mut self)
        ensures
            *final(self) == (Player {
                state: Media::Stopped,
                paused: false,
                cancelled: true,
                cursor: 0,
                duration: 0,
            }),
    {
        self.stop();
        self.duration = 0;
    }

    /// The recording is open; gives whether it is to be played.
    pub fn opened(&mut self, frames: u64) -> (play: bool)
        ensures
            (play, *final(self)) == opened(*old(self), frames),
    {
        if self.cancelled {
            return false;
        }
        self.duration = frames;
        self.state = Media::Playing;
        true
    }

    /// The thread came to its end; gives whether anyone is to be told.
    pub fn ended(&mut self, well: bool) -> (tell: bool)
        ensures
            (tell, *final(self)) == ended(*old(self), well),
    {
        if self.cancelled {
            return false;
        }
        self.state = if well {
            Media::Ended
        } else {
            Media::Failed
        };
        true
    }

    /// How long the recording is, in milliseconds.
    pub fn duration_ms(&self) -> (res: u64)
        ensures
            res == in_ms(self.duration),
    {
        self.duration / 48
    }

    /// Where it is being heard, in milliseconds.
    pub fn time_ms(&self) -> (res: u64)
        ensures
            res == in_ms(self.cursor),
    {
        self.cursor / 48
    }
}

/// How late a block may come before the clock is set anew.
pub const LATE_NS: i64 = 250_000_000;

/// How far ahead a block is handed out.
pub const AHEAD_NS: i64 = 100_000_000;

/// How far the replay has come, and the time at which its first frame was due.
#[derive(Clone, Copy, PartialEq, Eq, Structural, Debug)]
pub struct Reel {
    pub first: u64,
    pub anchor: i64,
    pub paused: bool,
}

/// What comes next.
#[derive(Clone, Copy, PartialEq, Eq, Structural, Debug)]
pub enum Beat {
    /// Nothing, while it is paused.
    Rest,
    /// So many nanoseconds have to pass.
    Wait(u64),
    /// A block is handed out, to be heard at this time.
    Play(i64),
}

/// How long the frames before the next block sound.
pub open spec fn elapsed(reel: Reel) -> int {
    reel.first * 1_000_000_000 / 48000
}

/// The clock is set anew after a pause, and where a block comes too late.
pub open spec fn resets(reel: Reel, now: i64) -> bool {
    reel.paused || now > reel.anchor + elapsed(reel) + LATE_NS
}

/// How the reel stands at a time at which it is not paused.
pub open spec fn anchored(reel: Reel, now: i64) -> Reel {
    if resets(reel, now) {
        Reel { anchor: (now - elapsed(reel)) as i64, paused: false, ..reel }
    } else {
        reel
    }
}

/// What comes next at a time, and how the reel stands then.
pub open spec fn beaten(reel: Reel, paused: bool, now: i64) -> (Beat, Reel) {
    if paused {
        (Beat::Rest, Reel { paused: true, ..reel })
    } else {
        let r = anchored(reel, now);
        let due = r.anchor + elapsed(r);
        (
            if now < due {
                Beat::Wait(
                    (if due - now < 5_000_000 {
                        due - now
                    } else {
                        5_000_000
                    }) as u64,
                )
            } else {
                Beat::Play((due + AHEAD_NS) as i64)
            },
            r,
        )
    }
}

/// How many of the samples that were read ahead make the next block.
pub open spec fn block_of(waiting: usize) -> usize {
    if waiting < 960 {
        waiting
    } else {
        960
    }
}

/// The frame that is being heard where so many were handed out of a recording.
pub open spec fn heard_at(first: u64, total: u64) -> int {
    let heard = if first < 4800 {
        0
    } else {
        first - 4800
    };
    if heard < total {
        heard
    } else {
        total as int
    }
}

impl Reel {
    /// Times can be told.
    pub open spec fn wf(self) -> bool {
        self.first <= 10_000_000_000_000 && -0x2000_0000_0000_0000 <= self.anchor
            <= 0x2000_0000_0000_0000
    }

    pub fn new(now: i64) -> (reel: Reel)
        ensures
            reel == (Reel { first: 0, anchor: now, paused: false }),
    {
        Reel { first: 0, anchor: now, paused: false }
    }

    /// What comes next at a time.
    pub fn beat(&mut self, paused: bool, now: i64) -> (beat: Beat)
        requires
            old(self).wf(),
            0 <= now <= 0x2000_0000_0000_0000,
        ensures
            final(self).wf(),
            (beat, *final(self)) == beaten(*old(self), paused, now),
    {
        if paused {
            self.paused = true;
            return Beat::Rest;
        }
        let offset: i64 = (self.first as i128 * 1_000_000_000 / 48000) as i64;
        if self.paused || now > self.anchor + offset + LATE_NS {
            self.anchor = now - offset;
            self.paused = false;
        }
        let due: i64 = self.anchor + offset;
        if now < due {
            let left: i64 = due - now;
            return Beat::Wait(
                if left < 5_000_000 {
                    left as u64
                } else {
                    5_000_000
                },
            );
        }
        Beat::Play(due + AHEAD_NS)
    }

    /// How many of the samples that were read ahead make the next block.
    pub fn primed(waiting: usize) -> (res: usize)
        ensures
            res == block_of(waiting),
    {
        if waiting < 960 {
            waiting
        } else {
            960
        }
    }

    /// So many frames were handed out, of a recording of so many; gives the frame that
    /// is being heard.
    pub fn played(&mut self, frames: u64, total: u64) -> (cursor: u64)
        requires
            old(self).first + frames <= u64::MAX,
        ensures
            *final(self) == (Reel { first: (old(self).first + frames) as u64, ..*old(self) }),
            cursor == heard_at(final(self).first, total),
    {
        self.first = self.first + frames;
        let heard: u64 = if self.first < 4800 {
            0
        } else {
            self.first - 4800
        };
        if heard < total {
            heard
        } else {
            total
        }
    }
}

/// While it is neither paused nor late, the replay keeps one clock: what was handed out
/// sounds without a gap, and the block after it is due when it has sounded.
pub proof fn replay_keeps_time(reel: Reel, now: i64, frames: u64)
    requires
        reel.wf(),
        0 <= now <= 0x2000_0000_0000_0000,
        !resets(reel, now),
        reel.first + frames <= 10_000_000_000_000,
    ensures
        anchored(reel, now) == reel,
        elapsed(Reel { first: (reel.first + frames) as u64, ..reel }) - elapsed(reel) - frames
            * 1_000_000_000 / 48000 <= 1,
        elapsed(Reel { first: (reel.first + frames) as u64, ..reel }) - elapsed(reel) >= frames
            * 1_000_000_000 / 48000,
        frames == 480 ==> elapsed(Reel { first: (reel.first + frames) as u64, ..reel }) == elapsed(
            reel,
        ) + 10_000_000,
{
}

/// After a pause the next block is due at once, wherever the replay had come.
pub proof fn replay_goes_on_at_once(reel: Reel, now: i64)
    requires
        reel.wf(),
        0 <= now <= 0x2000_0000_0000_0000,
        reel.paused,
    ensures
        anchored(reel, now).anchor + elapsed(reel) == now,
        anchored(reel, now).first == reel.first,
{
}

/// What the host tells of is told under its own name.
pub proof fn events_are_told_by_their_names(s: Source, event: HostEvent, shown: bool)
    ensures
        Notice::RecordingStarted.called() == "recording_started"@,
        Notice::RecordingStopped.called() == "recording_stopped"@,
        Notice::RecordingPaused.called() == "recording_paused"@,
        Notice::RecordingUnpaused.called() == "recording_unpaused"@,
        Notice::RecordingStopping.called() == "recording_stopping"@,
        Notice::SourceInactive.called() == "source_inactive"@,
        !s.closing && s.recording ==> {
            &&& event is RecordingStopped ==> reacted(s, event, shown).0 == Reaction::Tell(
                Notice::RecordingStopped,
            )
            &&& event is RecordingPaused ==> reacted(s, event, shown).0 == Reaction::Tell(
                Notice::RecordingPaused,
            )
            &&& event is RecordingUnpaused ==> reacted(s, event, shown).0 == Reaction::Tell(
                Notice::RecordingUnpaused,
            )
            &&& event is RecordingStopping ==> reacted(s, event, shown).0 == Reaction::Tell(
                Notice::RecordingStopping,
            )
        },
{
}

/// What the host's events do: its end and the end of its scenes stop the engine and with it
/// the recording; the start of a recording, and the end of loading, start the engine of a
/// source that is armed and shown. No event arms a source, and only the host's end makes it
/// leave.
pub proof fn events_do_what_they_are_for(s: Source, event: HostEvent, shown: bool)
    requires
        !s.closing,
    ensures
        ({
            let (what, next) = reacted(s, event, shown);
            &&& event is Exit ==> what == Reaction::Stop && next.closing && !next.recording
            &&& event is SceneCollectionCleanup ==> what == Reaction::Stop && !next.recording
            &&& what == Reaction::Stop ==> event is Exit || event is SceneCollectionCleanup
            &&& what == Reaction::Record <==> event is RecordingStarted && s.armed && shown
            &&& what == Reaction::Begin <==> event is FinishedLoading && s.armed && shown
            &&& what == Reaction::Begin ==> next.active
            &&& what != Reaction::Begin ==> next.active == s.active
            &&& event is Other ==> what == Reaction::Nothing && next == s
            &&& next.armed == s.armed
            &&& next.closing <==> event is Exit
            &&& next.recording ==> s.recording
            &&& s.recording && !next.recording ==> event is Exit || event is SceneCollectionCleanup
                || event is RecordingStopped
        }),
{
}

/// An engine is started where none runs, unless the host leaves, for a synthetic source or an
/// endpoint.
pub proof fn engines_start_where_they_can(
    s: Source,
    running: bool,
    fixture: bool,
    endpoint: Seq<char>,
)
    ensures
        running || s.closing ==> !can_start(s, running, fixture, endpoint),
        !running && !s.closing && fixture ==> can_start(s, running, fixture, endpoint),
        !running && !s.closing && !fixture ==> (can_start(s, running, fixture, endpoint) <==>
            endpoint.len() >= 1),
{
}

/// Settings that changed stop the engine, and the recording with it, and arm the source as
/// they say; the same settings change nothing. Input is wanted only where it is armed, under
/// a host, and of a source that is shown.
pub proof fn settings_arm_the_source(s: Source, changed: bool, armed: bool, host: bool, shown: bool)
    ensures
        configured(s, changed, armed).0 <==> changed || armed != s.armed,
        configured(s, changed, armed).1.armed == armed,
        configured(s, changed, armed).0 ==> !configured(s, changed, armed).1.recording,
        !configured(s, changed, armed).0 ==> configured(s, changed, armed).1 == s,
        configured(s, changed, armed).1.active == s.active,
        configured(s, changed, armed).1.closing == s.closing,
        wants(s, host, shown) ==> host && s.armed,
        host && s.armed && shown ==> wants(s, host, shown),
        host && s.armed && !shown ==> (wants(s, host, shown) <==> s.active),
{
}

/// The engine is told of a recording once: it runs, the host records, and it was not told
/// before. A source that is hidden tells only while a recording runs.
pub proof fn recordings_are_told_once(s: Source, host_records: bool, running: bool, host: bool)
    ensures
        ({
            let (tell, next) = joined(s, host_records, running);
            &&& tell <==> host_records && running && !s.recording
            &&& tell ==> next.recording && !joined(next, host_records, running).0
            &&& !tell ==> next == s
            &&& next.armed == s.armed && next.active == s.active && next.closing == s.closing
        }),
        hidden(s).0 is Some <==> s.recording,
        hidden(s).0 matches Some(n) ==> n == Notice::SourceInactive,
        !hidden(s).1.active && hidden(s).1.recording == s.recording && hidden(s).1.armed == s.armed
            && hidden(s).1.closing == s.closing,
        shown_again(s, host).0 <==> s.armed && host,
        shown_again(s, host).1.active && shown_again(s, host).1.recording == s.recording
            && shown_again(s, host).1.armed == s.armed && shown_again(s, host).1.closing
            == s.closing,
        shown_again(hidden(s).1, host).1 == (Source { active: true, ..s }),
{
}

/// The panel offers a switch under a host, and buttons elsewhere, of which exactly one can be
/// pressed; it never offers both. Settings rest while a recording or the source runs.
pub proof fn panels_offer_what_can_be_done(
    host: bool,
    running: bool,
    recording: bool,
    has_audio: bool,
)
    ensures
        ({
            let p = panel_of(host, running, recording, has_audio);
            &&& p.input == host
            &&& p.reconnect is Some <==> host
            &&& p.start is Some <==> !host
            &&& p.stop is Some <==> !host
            &&& p.reconnect matches Some(can) ==> can == !running
            &&& p.start matches Some(can) ==> can == !running
            &&& p.stop matches Some(can) ==> can == running
            &&& p.listen == has_audio
            &&& host ==> p.fields == !recording
            &&& !host ==> p.fields == !running
        }),
{
}

/// The status is the engine's message, and what went wrong with the archive in a second line.
pub proof fn status_is_two_lines(info: Tree)
    ensures
        info.text_at("message"@) matches Some(m) ==> status_of(info).take(m.len() as int) == m
            && status_of(info)[m.len() as int] == '\n',
        info.text_at("message"@) matches Some(m) ==> (info.text_at("archive_error"@) matches Some(
            e,
        ) ==> status_of(info).skip(m.len() as int + 1) == e),
        info.text_at("message"@) matches Some(m) ==> (info.text_at("archive_error"@) is None
            ==> status_of(info).len() == m.len() + 1),
        info.text_at("message"@) is None ==> status_of(info).take(5) == "入力待機中"@,
{
    reveal_strlit("\n");
    reveal_strlit("");
    reveal_strlit("入力待機中");
    assert("\n"@.len() == 1 && ""@.len() == 0 && "入力待機中"@.len() == 5);
    match info.text_at("message"@) {
        Some(m) => {
            assert(status_of(info).take(m.len() as int) =~= m);
            if let Some(e) = info.text_at("archive_error"@) {
                assert(status_of(info).skip(m.len() as int + 1) =~= e);
            }
        },
        None => {
            assert(status_of(info).take(5) =~= "入力待機中"@);
        },
    }
}

/// A replay that is held and let go on is where it was; one that has nothing to go on with
/// is started anew.
pub proof fn replays_go_on_where_they_were(p: Player)
    ensures
        held(p, true).1.state is Paused && held(p, true).1.paused && !held(p, true).0,
        held(p, true).1.cursor == p.cursor && held(p, true).1.duration == p.duration,
        held(p, true).1.cancelled == p.cancelled,
        ({
            let back = held(held(p, true).1, false);
            &&& !back.0
            &&& back.1.state is Playing && !back.1.paused
            &&& back.1.cursor == p.cursor && back.1.duration == p.duration
        }),
        held(p, false).0 <==> p.state is Stopped || p.state is Ended || p.state is Failed,
        held(p, false).0 ==> held(p, false).1 == p,
{
}

/// A replay that was given up neither plays nor tells of its end; another plays for as long
/// as its recording is, and ends well or not.
pub proof fn replays_end_as_they_went(p: Player, frames: u64, well: bool)
    ensures
        p.cancelled ==> opened(p, frames) == (false, p) && ended(p, well) == (false, p),
        !p.cancelled ==> opened(p, frames).0 && opened(p, frames).1.state is Playing && opened(
            p,
            frames,
        ).1.duration == frames && opened(p, frames).1.cursor == p.cursor,
        !p.cancelled ==> ended(p, well).0 && (ended(p, well).1.state is Ended <==> well) && (ended(
            p,
            well,
        ).1.state is Failed <==> !well) && ended(p, well).1.cursor == p.cursor,
        in_ms(frames) * 48 <= frames < (in_ms(frames) + 1) * 48,
{
}

/// A block is due when all before it have sounded, and is handed out then, to be heard a tenth
/// of a second later. Before that the replay waits, and no longer than until the block is due.
pub proof fn blocks_are_handed_out_when_due(reel: Reel, now: i64)
    requires
        reel.wf(),
        0 <= now <= 0x2000_0000_0000_0000,
        !reel.paused,
        now <= reel.anchor + elapsed(reel) + 250_000_000,
    ensures
        ({
            let due = reel.anchor + elapsed(reel);
            let (beat, next) = beaten(reel, false, now);
            &&& next == reel
            &&& now >= due ==> beat == Beat::Play((due + 100_000_000) as i64)
            &&& now < due ==> (beat matches Beat::Wait(ns) && 0 < ns <= due - now && ns <= 5_000_000
                && (ns == due - now || ns == 5_000_000))
            &&& elapsed(reel) * 48000 <= reel.first * 1_000_000_000 < (elapsed(reel) + 1) * 48000
        }),
        beaten(reel, true, now).0 == Beat::Rest,
        beaten(reel, true, now).1.paused && beaten(reel, true, now).1.first == reel.first,
{
}

/// A block that comes more than a quarter of a second late, or after a pause, is heard a
/// tenth of a second from now, and the clock goes on from there.
pub proof fn late_blocks_set_the_clock(reel: Reel, now: i64)
    requires
        reel.wf(),
        0 <= now <= 0x2000_0000_0000_0000,
        reel.paused || now > reel.anchor + elapsed(reel) + 250_000_000,
    ensures
        beaten(reel, false, now).0 == Beat::Play((now + 100_000_000) as i64),
        beaten(reel, false, now).1.anchor + elapsed(reel) == now,
        !beaten(reel, false, now).1.paused,
        beaten(reel, false, now).1.first == reel.first,
{
}

/// What is heard is a tenth of a second behind what was handed out, and never beyond the end
/// of the recording; a block is ten milliseconds of two channels, or what is left.
pub proof fn hearing_comes_after_handing_out(first: u64, total: u64, waiting: usize)
    ensures
        heard_at(first, total) <= total,
        first >= 4800 && first - 4800 <= total ==> heard_at(first, total) + 4800 == first,
        first < 4800 ==> heard_at(first, total) == 0,
        first >= 4800 + total ==> heard_at(first, total) == total,
        block_of(waiting) <= waiting && block_of(waiting) <= 960,
        block_of(waiting) == waiting || block_of(waiting) == 960,
{
}

} // verus!
