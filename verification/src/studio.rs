//! The desktop studio: which recordings and folders it may touch, and what it does
//! while input runs or a recording is processed again.
use crate::json::{Json, Tree};
use crate::text;
use crate::text::{same, starts_with, TextMap};
use vstd::prelude::*;

verus! {

broadcast use vstd::string::group_string_axioms;

/// Why the studio does not do what it is asked.
#[derive(Clone, Copy, PartialEq, Eq, Structural, Debug)]
pub enum Refusal {
    /// The recording was neither listed nor picked.
    Unlisted,
    /// Input runs.
    Running,
    /// The folder was not picked.
    Root,
    /// A folder is picked for no purpose.
    Purpose,
    /// The folder that was picked is no recording.
    NoRecording,
    /// No microphone was chosen.
    NoMicrophone,
    /// Input was not enabled.
    NoInput,
    /// Input has stopped.
    Stopped,
    /// A recording is being processed.
    Rendering,
    /// A recording is being processed, so none is renamed.
    RenderingRename,
}

impl Refusal {
    pub open spec fn says(self) -> Seq<char> {
        match self {
            Refusal::Unlisted => "一覧またはフォルダー選択から録音を選んでください"@,
            Refusal::Running => "入力を無効にしてから録音設定を変更してください"@,
            Refusal::Root => "保存先はフォルダー選択で指定してください"@,
            Refusal::Purpose => "Invalid folder purpose"@,
            Refusal::NoRecording =>
                "session.json または take.json がある録音フォルダーを選んでください"@,
            Refusal::NoMicrophone => "マイクを選んでください"@,
            Refusal::NoInput => "先に入力を有効にしてください"@,
            Refusal::Stopped => "入力が停止しています"@,
            Refusal::Rendering => "再処理が進行中です"@,
            Refusal::RenderingRename => "再処理が完了してから名前を変更してください"@,
        }
    }

    /// What the user is told.
    pub fn text(self) -> (res: &'static str)
        ensures
            res@ == self.says(),
    {
        match self {
            Refusal::Unlisted => "一覧またはフォルダー選択から録音を選んでください",
            Refusal::Running => "入力を無効にしてから録音設定を変更してください",
            Refusal::Root => "保存先はフォルダー選択で指定してください",
            Refusal::Purpose => "Invalid folder purpose",
            Refusal::NoRecording =>
                "session.json または take.json がある録音フォルダーを選んでください",
            Refusal::NoMicrophone => "マイクを選んでください",
            Refusal::NoInput => "先に入力を有効にしてください",
            Refusal::Stopped => "入力が停止しています",
            Refusal::Rendering => "再処理が進行中です",
            Refusal::RenderingRename => "再処理が完了してから名前を変更してください",
        }
    }
}

/// A path as users know it, without the prefix of an extended one.
pub open spec fn plain_of(path: Seq<char>) -> Seq<char> {
    if text::begins(path, "\\\\?\\UNC\\"@) {
        "\\\\"@ + path.skip(8)
    } else if text::begins(path, "\\\\?\\"@) {
        path.skip(4)
    } else {
        path
    }
}

/// A path as users know it.
pub fn plain(path: &str) -> (res: String)
    ensures
        res@ == plain_of(path@),
{
    proof {
        reveal_strlit("\\\\?\\UNC\\");
        reveal_strlit("\\\\?\\");
    }
    if starts_with(path, "\\\\?\\UNC\\") {
        let mut res = "\\\\".to_owned();
        let rest = path.substring_char(8, path.unicode_len());
        assert(rest@ =~= path@.skip(8));
        res.append(rest);
        return res;
    }
    if starts_with(path, "\\\\?\\") {
        let rest = path.substring_char(4, path.unicode_len());
        assert(rest@ =~= path@.skip(4));
        return rest.to_owned();
    }
    path.to_owned()
}

/// The recordings that were listed or picked, and the folders that were picked to hold
/// them, each by its full path.
#[derive(Debug)]
pub struct Shelf {
    sessions: TextMap<()>,
    roots: TextMap<()>,
}

impl Shelf {
    /// The recordings that may be touched.
    pub closed spec fn sessions(&self) -> Set<Seq<char>> {
        self.sessions@.dom()
    }

    /// The folders that recordings may be put in.
    pub closed spec fn roots(&self) -> Set<Seq<char>> {
        self.roots@.dom()
    }

    pub closed spec fn wf(&self) -> bool {
        self.sessions.wf() && self.roots.wf()
    }

    /// At first, recordings can be put in one folder, and none may be touched.
    pub fn new(root: &str) -> (shelf: Shelf)
        ensures
            shelf.wf(),
            shelf.sessions() == Set::<Seq<char>>::empty(),
            shelf.roots() == Set::empty().insert(root@),
    {
        let mut roots = TextMap::new();
        roots.insert(root.to_owned(), ());
        let shelf = Shelf { sessions: TextMap::new(), roots };
        assert(shelf.roots() =~= Set::empty().insert(root@));
        assert(shelf.sessions() =~= Set::<Seq<char>>::empty());
        shelf
    }

    /// A recording was listed or picked.
    pub fn list(&mut self, path: &str)
        requires
            old(self).wf(),
        ensures
            final(self).wf(),
            final(self).sessions() == old(self).sessions().insert(path@),
            final(self).roots() == old(self).roots(),
    {
        self.sessions.insert(path.to_owned(), ());
        assert(self.sessions() =~= old(self).sessions().insert(path@));
    }

    /// A folder was picked.
    pub fn pick(&mut self, path: &str)
        requires
            old(self).wf(),
        ensures
            final(self).wf(),
            final(self).roots() == old(self).roots().insert(path@),
            final(self).sessions() == old(self).sessions(),
    {
        self.roots.insert(path.to_owned(), ());
        assert(self.roots() =~= old(self).roots().insert(path@));
    }

    /// A recording has another path now.
    pub fn renamed(&mut self, from: &str, to: &str)
        requires
            old(self).wf(),
        ensures
            final(self).wf(),
            final(self).sessions() == old(self).sessions().remove(from@).insert(to@),
            final(self).roots() == old(self).roots(),
    {
        self.sessions.remove(from);
        self.sessions.insert(to.to_owned(), ());
        assert(self.sessions() =~= old(self).sessions().remove(from@).insert(to@));
    }

    /// Whether a recording may be touched.
    pub fn authorize(&self, path: &str) -> (res: Result<(), Refusal>)
        requires
            self.wf(),
        ensures
            res == (if self.sessions().contains(path@) {
                Ok(())
            } else {
                Err(Refusal::Unlisted)
            }),
    {
        match self.sessions.get(path) {
            Some(_) => Ok(()),
            None => Err(Refusal::Unlisted),
        }
    }

    /// Whether recordings can be put in a folder.
    pub fn configure(&self, root: &str) -> (res: Result<(), Refusal>)
        requires
            self.wf(),
        ensures
            res == (if self.roots().contains(root@) {
                Ok(())
            } else {
                Err(Refusal::Root)
            }),
    {
        match self.roots.get(root) {
            Some(_) => Ok(()),
            None => Err(Refusal::Root),
        }
    }
}

/// Whether the settings of recordings can be changed.
pub fn ensure_configurable(running: bool) -> (res: Result<(), Refusal>)
    ensures
        res == (if running {
            Err(Refusal::Running)
        } else {
            Ok(())
        }),
{
    if running {
        Err(Refusal::Running)
    } else {
        Ok(())
    }
}

/// What a folder is picked for.
#[derive(Clone, Copy, PartialEq, Eq, Structural, Debug)]
pub enum Purpose {
    Recordings,
    Session,
}

/// What a folder is picked for, if it may be.
pub open spec fn purpose_of(purpose: Seq<char>, running: bool) -> Result<Purpose, Refusal> {
    if purpose == "session"@ {
        Ok(Purpose::Session)
    } else if purpose != "recordings"@ {
        Err(Refusal::Purpose)
    } else if running {
        Err(Refusal::Running)
    } else {
        Ok(Purpose::Recordings)
    }
}

/// What a folder is picked for, if it may be: none is picked for recordings while
/// input runs.
pub fn choose_folder(purpose: &str, running: bool) -> (res: Result<Purpose, Refusal>)
    ensures
        res == purpose_of(purpose@, running),
{
    if same(purpose, "session") {
        return Ok(Purpose::Session);
    }
    if !same(purpose, "recordings") {
        return Err(Refusal::Purpose);
    }
    if running {
        return Err(Refusal::Running);
    }
    Ok(Purpose::Recordings)
}

/// Whether a folder can serve its purpose.
pub open spec fn serves(purpose: Purpose, is_session: bool, running: bool) -> Result<(), Refusal> {
    match purpose {
        Purpose::Session => if is_session {
            Ok(())
        } else {
            Err(Refusal::NoRecording)
        },
        Purpose::Recordings => if running {
            Err(Refusal::Running)
        } else {
            Ok(())
        },
    }
}

/// A folder was picked; whether it can serve its purpose.
pub fn picked(purpose: Purpose, is_session: bool, running: bool) -> (res: Result<(), Refusal>)
    ensures
        res == serves(purpose, is_session, running),
{
    match purpose {
        Purpose::Session => if is_session {
            Ok(())
        } else {
            Err(Refusal::NoRecording)
        },
        Purpose::Recordings => ensure_configurable(running),
    }
}

/// Whether input can be enabled.
pub open spec fn enabling(running: bool, fixture: bool, endpoint: Seq<char>) -> Result<
    (),
    Refusal,
> {
    if running {
        Err(Refusal::Running)
    } else if !fixture && endpoint.len() == 0 {
        Err(Refusal::NoMicrophone)
    } else {
        Ok(())
    }
}

/// Whether input can be enabled: it does not run, and there is something to listen to.
pub fn input_enable(running: bool, fixture: bool, endpoint: &str) -> (res: Result<(), Refusal>)
    ensures
        res == enabling(running, fixture, endpoint@),
{
    if running {
        return Err(Refusal::Running);
    }
    if !fixture && endpoint.unicode_len() == 0 {
        return Err(Refusal::NoMicrophone);
    }
    Ok(())
}

/// What the engine is told.
pub open spec fn control(recording: bool, engine: Option<bool>) -> Result<Seq<char>, Refusal> {
    match engine {
        None => Err(Refusal::NoInput),
        Some(false) => Err(Refusal::Stopped),
        Some(true) => Ok(
            if recording {
                "recording_started"@
            } else {
                "recording_stopped"@
            },
        ),
    }
}

/// What the engine is told to begin or to end a recording; `engine` is whether it runs,
/// if there is one.
pub fn record_control(recording: bool, engine: Option<bool>) -> (res: Result<
    &'static str,
    Refusal,
>)
    ensures
        res matches Ok(s) ==> control(recording, engine) == Ok::<_, Refusal>(s@),
        res matches Err(e) ==> control(recording, engine) == Err::<Seq<char>, _>(e),
{
    match engine {
        None => Err(Refusal::NoInput),
        Some(false) => Err(Refusal::Stopped),
        Some(true) => if recording {
            Ok("recording_started")
        } else {
            Ok("recording_stopped")
        },
    }
}

/// Whether the output can be listened to, or left.
pub fn monitor_enable(enabled: bool, running: bool) -> (res: Result<(), Refusal>)
    ensures
        res == (if enabled && !running {
            Err(Refusal::NoInput)
        } else {
            Ok(())
        }),
{
    if enabled && !running {
        Err(Refusal::NoInput)
    } else {
        Ok(())
    }
}

/// Whether a recording can be touched, with this refusal while one is processed.
pub open spec fn touching(
    sessions: Set<Seq<char>>,
    path: Seq<char>,
    rendering: bool,
    refusal: Refusal,
) -> Result<(), Refusal> {
    if rendering {
        Err(refusal)
    } else if !sessions.contains(path) {
        Err(Refusal::Unlisted)
    } else {
        Ok(())
    }
}

/// Whether a recording can be processed again: one at a time, and one that may be
/// touched.
pub fn reprocess_recording(shelf: &Shelf, path: &str, rendering: bool) -> (res: Result<
    (),
    Refusal,
>)
    requires
        shelf.wf(),
    ensures
        res == touching(shelf.sessions(), path@, rendering, Refusal::Rendering),
{
    if rendering {
        return Err(Refusal::Rendering);
    }
    shelf.authorize(path)
}

/// Whether a recording can be renamed.
pub fn rename_recording(shelf: &Shelf, path: &str, rendering: bool) -> (res: Result<(), Refusal>)
    requires
        shelf.wf(),
    ensures
        res == touching(shelf.sessions(), path@, rendering, Refusal::RenderingRename),
{
    if rendering {
        return Err(Refusal::RenderingRename);
    }
    shelf.authorize(path)
}

/// An option of the command line; each is followed by a path.
#[derive(Clone, Copy, PartialEq, Eq, Structural, Debug)]
pub enum Flag {
    FixtureConfig,
    Settings,
    SteamAudio,
}

/// The option that an argument is, if it is one.
pub open spec fn flag_of(argument: Seq<char>) -> Option<Flag> {
    if argument == "--fixture-config"@ {
        Some(Flag::FixtureConfig)
    } else if argument == "--settings"@ {
        Some(Flag::Settings)
    } else if argument == "--steam-audio"@ {
        Some(Flag::SteamAudio)
    } else {
        None
    }
}

/// The option that an argument is, if it is one.
pub fn flag(argument: &str) -> (res: Option<Flag>)
    ensures
        res == flag_of(argument@),
{
    if same(argument, "--fixture-config") {
        Some(Flag::FixtureConfig)
    } else if same(argument, "--settings") {
        Some(Flag::Settings)
    } else if same(argument, "--steam-audio") {
        Some(Flag::SteamAudio)
    } else {
        None
    }
}

/// Whether the options let a recording become the latest, if they say so clearly.
pub open spec fn publishing(options: Tree) -> Option<bool> {
    match options.get("publish_latest"@) {
        Some(v) => v.flag(),
        None => Some(true),
    }
}

/// Whether a recording that is processed again becomes the latest; it does unless the
/// options say no. Gives nothing where they say neither yes nor no.
pub fn publishes(options: &Json) -> (res: Option<bool>)
    ensures
        res == publishing(options@),
{
    match options.get("publish_latest") {
        Some(v) => v.flag(),
        None => Some(true),
    }
}

/// A recording that is renamed may be touched under its new path and no longer under
/// the old one; nothing changes for the others.
pub proof fn renaming_moves_the_permission(sessions: Set<Seq<char>>, from: Seq<char>, to: Seq<char>)
    requires
        from != to,
    ensures
        sessions.remove(from).insert(to).contains(to),
        !sessions.remove(from).insert(to).contains(from),
        forall|other: Seq<char>|
            other != from && other != to ==> (sessions.contains(other) <==> #[trigger] sessions.remove(
                from,
            ).insert(to).contains(other)),
{
}

/// A folder is picked for a recording at any time, and for recordings while input does not
/// run; it serves where it is a recording, or still while input does not run.
pub proof fn folders_serve_their_purpose(purpose: Seq<char>, is_session: bool, running: bool)
    ensures
        purpose_of("session"@, running) == Ok::<_, Refusal>(Purpose::Session),
        purpose_of("recordings"@, false) == Ok::<_, Refusal>(Purpose::Recordings),
        purpose_of("recordings"@, true) == Err::<Purpose, _>(Refusal::Running),
        purpose != "session"@ && purpose != "recordings"@ ==> purpose_of(purpose, running) == Err::<
            Purpose,
            _,
        >(Refusal::Purpose),
        serves(Purpose::Session, is_session, running) is Ok <==> is_session,
        serves(Purpose::Session, false, running) == Err::<(), _>(Refusal::NoRecording),
        serves(Purpose::Recordings, is_session, running) is Ok <==> !running,
        serves(Purpose::Recordings, is_session, true) == Err::<(), _>(Refusal::Running),
{
    reveal_strlit("session");
    reveal_strlit("recordings");
    assert("session"@.len() == 7 && "recordings"@.len() == 10);
}

/// Input is enabled once, and needs a microphone unless there is a synthetic source; a
/// recording is begun and ended only while it runs.
pub proof fn input_comes_before_recordings(
    running: bool,
    fixture: bool,
    endpoint: Seq<char>,
    recording: bool,
)
    ensures
        enabling(running, fixture, endpoint) is Ok <==> !running && (fixture || endpoint.len() > 0),
        enabling(true, fixture, endpoint) == Err::<(), _>(Refusal::Running),
        !running && !fixture && endpoint.len() == 0 ==> enabling(running, fixture, endpoint)
            == Err::<(), _>(Refusal::NoMicrophone),
        control(recording, None) == Err::<Seq<char>, _>(Refusal::NoInput),
        control(recording, Some(false)) == Err::<Seq<char>, _>(Refusal::Stopped),
        control(true, Some(true)) == Ok::<_, Refusal>("recording_started"@),
        control(false, Some(true)) == Ok::<_, Refusal>("recording_stopped"@),
{
}

/// Only recordings that were listed or picked are touched, and none while one is processed.
pub proof fn only_listed_recordings_are_touched(
    sessions: Set<Seq<char>>,
    path: Seq<char>,
    rendering: bool,
    refusal: Refusal,
)
    ensures
        touching(sessions, path, rendering, refusal) is Ok <==> !rendering && sessions.contains(
            path,
        ),
        rendering ==> touching(sessions, path, rendering, refusal) == Err::<(), _>(refusal),
        !rendering && !sessions.contains(path) ==> touching(sessions, path, rendering, refusal)
            == Err::<(), _>(Refusal::Unlisted),
{
}

/// A path that users know is left as it is; of an extended one the prefix goes, and one of a
/// server begins with two strokes again.
pub proof fn paths_are_shown_plainly(path: Seq<char>)
    ensures
        plain_of("\\\\?\\UNC\\"@ + path) == "\\\\"@ + path,
        !text::begins(path, "UNC\\"@) ==> plain_of("\\\\?\\"@ + path) == path,
        !text::begins(path, "\\\\?\\"@) ==> plain_of(path) == path,
{
    reveal_strlit("\\\\?\\UNC\\");
    reveal_strlit("\\\\?\\");
    reveal_strlit("UNC\\");
    let unc = "\\\\?\\UNC\\"@;
    let ext = "\\\\?\\"@;
    let word = "UNC\\"@;
    assert(unc.len() == 8 && ext.len() == 4 && word.len() == 4);
    assert(unc =~= ext + word);
    text::texts_begin_and_end_with_their_parts(unc, path, path);
    text::texts_begin_and_end_with_their_parts(ext, path, path);
    assert((unc + path).skip(8) =~= path);
    assert((ext + path).skip(4) =~= path);
    if text::begins(ext + path, unc) {
        assert((ext + path).take(8) == unc);
        assert(path.take(4) =~= word) by {
            assert forall|i: int| 0 <= i < 4 implies path[i] == word[i] by {
                assert((ext + path).take(8)[4 + i] == unc[4 + i]);
            }
        }
        assert(text::begins(path, word));
    }
    if text::begins(path, unc) {
        assert(path.take(4) =~= path.take(8).take(4));
        assert(unc.take(4) =~= ext);
        assert(text::begins(path, ext));
    }
}

/// The options have their names.
pub proof fn options_have_their_names(argument: Seq<char>)
    ensures
        flag_of("--fixture-config"@) == Some(Flag::FixtureConfig),
        flag_of("--settings"@) == Some(Flag::Settings),
        flag_of("--steam-audio"@) == Some(Flag::SteamAudio),
        flag_of(argument) is Some ==> argument == "--fixture-config"@ || argument == "--settings"@
            || argument == "--steam-audio"@,
{
    reveal_strlit("--fixture-config");
    reveal_strlit("--settings");
    reveal_strlit("--steam-audio");
    assert("--fixture-config"@.len() == 16 && "--settings"@.len() == 10 && "--steam-audio"@.len()
        == 13);
}

/// A recording becomes the latest unless the options say no; options that are unclear are
/// neither yes nor no.
pub proof fn recordings_become_the_latest(options: Tree)
    ensures
        options.get("publish_latest"@) is None ==> publishing(options) == Some(true),
        options.flag_at("publish_latest"@) matches Some(b) ==> publishing(options) == Some(b),
        options.get("publish_latest"@) is Some && options.flag_at("publish_latest"@) is None
            ==> publishing(options) is None,
{
}

} // verus!
