//! Recordings on disk: the settings they are made with, the paths and names they may
//! have, what can be done with them, and how they are processed again.
use crate::bits;
use crate::bits::gain;
use crate::json::{copy, Json, Number, Tree};
use crate::math;
use crate::math::Vec3;
use crate::pose;
use crate::pose::{source_mode, SourceMode};
use crate::text::same;
use vstd::prelude::*;

verus! {

broadcast use vstd::string::group_string_axioms;

/// Why settings are refused.
#[derive(Clone, Copy, PartialEq, Eq, Structural, Debug)]
pub enum SettingsError {
    /// They are no object.
    Object,
    /// The gain is no number.
    Gain,
    /// The channel is no number.
    Channel,
    /// The gain or the channel is out of range.
    Recording,
    /// A name is no text.
    EndpointId,
    OutputRoot,
    SourceMode,
    MonitorEndpoint,
    /// Whether to save raw data is neither true nor false.
    SaveRaw,
    /// The offset of the mouth is not three numbers.
    OffsetShape,
    /// The offset of the mouth is too large.
    Offset,
    /// There is no such source mode.
    Mode,
}

/// How recordings are made.
#[derive(Debug)]
pub struct Settings {
    pub endpoint_id: String,
    pub output_root: String,
    pub channel: u64,
    pub gain_db: u64,
    pub save_raw: bool,
    pub source_mode: SourceMode,
    pub mouth_offset_m: Vec3,
    pub monitor_endpoint: String,
}

/// Settings by their contents.
#[verifier::ext_equal]
pub ghost struct Choice {
    pub endpoint_id: Seq<char>,
    pub output_root: Seq<char>,
    pub channel: u64,
    pub gain_db: u64,
    pub save_raw: bool,
    pub source_mode: SourceMode,
    pub mouth_offset_m: Vec3,
    pub monitor_endpoint: Seq<char>,
}

impl View for Settings {
    type V = Choice;

    open spec fn view(&self) -> Choice {
        Choice {
            endpoint_id: self.endpoint_id@,
            output_root: self.output_root@,
            channel: self.channel,
            gain_db: self.gain_db,
            save_raw: self.save_raw,
            source_mode: self.source_mode,
            mouth_offset_m: self.mouth_offset_m,
            monitor_endpoint: self.monitor_endpoint@,
        }
    }
}

/// The bits of -18.0.
pub const DEFAULT_GAIN: u64 = 0xc032_0000_0000_0000;

/// The bits of 0.0064 and of -0.0736.
pub const DEFAULT_UP: u64 = 0x3f7a_36e2_eb1c_432d;

pub const DEFAULT_FRONT: u64 = 0xbfb2_d773_18fc_5048;

/// Where the mouth is, seen from the eyes.
pub open spec fn default_offset() -> Vec3 {
    Vec3 { x: 0, y: DEFAULT_UP, z: DEFAULT_FRONT }
}

/// What holds where nothing else is set.
pub open spec fn default_choice() -> Choice {
    Choice {
        endpoint_id: Seq::empty(),
        output_root: Seq::empty(),
        channel: 0,
        gain_db: DEFAULT_GAIN,
        save_raw: true,
        source_mode: SourceMode::Auto,
        mouth_offset_m: default_offset(),
        monitor_endpoint: Seq::empty(),
    }
}

/// The text at a key, or nothing where the key is missing.
pub open spec fn text_or_empty(t: Tree, key: Seq<char>) -> Option<Seq<char>> {
    match t.get(key) {
        Some(v) => v.text(),
        None => Some(Seq::empty()),
    }
}

/// The settings that a document holds. What it leaves out is as it is by default.
pub open spec fn settings_of(t: Tree) -> Result<Choice, SettingsError> {
    let gain_db = match t.get("gain_db"@) {
        Some(v) => v.bits(),
        None => Some(DEFAULT_GAIN),
    };
    let channel = match t.get("channel"@) {
        Some(v) => v.unsigned(),
        None => Some(0u64),
    };
    let save_raw = match t.get("save_raw"@) {
        Some(v) => v.flag(),
        None => Some(true),
    };
    let offset = match t.get("mouth_offset_m"@) {
        Some(v) => math::vec3_in(v),
        None => Some(default_offset()),
    };
    let mode = match t.get("source_mode"@) {
        Some(v) => v.text(),
        None => Some("auto"@),
    };
    let endpoint_id = text_or_empty(t, "endpoint_id"@);
    let output_root = text_or_empty(t, "output_root"@);
    let monitor_endpoint = text_or_empty(t, "monitor_endpoint"@);
    if !(t is Object) {
        Err(SettingsError::Object)
    } else if gain_db is None {
        Err(SettingsError::Gain)
    } else if channel is None {
        Err(SettingsError::Channel)
    } else if !bits::down_to_minus(gain_db->0, bits::SIXTY) || channel->0 > 31 {
        Err(SettingsError::Recording)
    } else if endpoint_id is None {
        Err(SettingsError::EndpointId)
    } else if output_root is None {
        Err(SettingsError::OutputRoot)
    } else if mode is None {
        Err(SettingsError::SourceMode)
    } else if monitor_endpoint is None {
        Err(SettingsError::MonitorEndpoint)
    } else if save_raw is None {
        Err(SettingsError::SaveRaw)
    } else if offset is None {
        Err(SettingsError::OffsetShape)
    } else if !offset->0.is_within_one() {
        Err(SettingsError::Offset)
    } else if pose::mode_named(mode->0) is None {
        Err(SettingsError::Mode)
    } else {
        Ok(
            Choice {
                endpoint_id: endpoint_id->0,
                output_root: output_root->0,
                channel: channel->0,
                gain_db: gain_db->0,
                save_raw: save_raw->0,
                source_mode: pose::mode_named(mode->0)->0,
                mouth_offset_m: offset->0,
                monitor_endpoint: monitor_endpoint->0,
            },
        )
    }
}

fn text_setting(value: &Json, key: &str) -> (res: Option<String>)
    ensures
        res is Some <==> text_or_empty(value@, key@) is Some,
        res matches Some(s) ==> text_or_empty(value@, key@) == Some(s@),
{
    match value.get(key) {
        Some(v) => match v.text() {
            Some(s) => Some(s.as_str().to_owned()),
            None => None,
        },
        None => Some(String::new()),
    }
}

/// What holds where nothing else is set.
pub fn defaults() -> (s: Settings)
    ensures
        s@ == default_choice(),
{
    Settings {
        endpoint_id: String::new(),
        output_root: String::new(),
        channel: 0,
        gain_db: DEFAULT_GAIN,
        save_raw: true,
        source_mode: SourceMode::Auto,
        mouth_offset_m: Vec3 { x: 0, y: DEFAULT_UP, z: DEFAULT_FRONT },
        monitor_endpoint: String::new(),
    }
}

/// Reads settings.
pub fn settings(value: &Json) -> (res: Result<Settings, SettingsError>)
    ensures
        res matches Err(e) ==> settings_of(value@) == Err::<Choice, _>(e),
        res matches Ok(s) ==> settings_of(value@) == Ok::<_, SettingsError>(s@),
{
    let is_object = match value {
        Json::Object(_) => true,
        _ => false,
    };
    if !is_object {
        return Err(SettingsError::Object);
    }
    let gain_db: u64 = match value.get("gain_db") {
        Some(v) => match v.bits() {
            Some(n) => n,
            None => {
                return Err(SettingsError::Gain);
            },
        },
        None => DEFAULT_GAIN,
    };
    let channel: u64 = match value.get("channel") {
        Some(v) => match v.unsigned() {
            Some(n) => n,
            None => {
                return Err(SettingsError::Channel);
            },
        },
        None => 0,
    };
    if !gain(gain_db) || channel > 31 {
        return Err(SettingsError::Recording);
    }
    let endpoint_id = match text_setting(value, "endpoint_id") {
        Some(s) => s,
        None => {
            return Err(SettingsError::EndpointId);
        },
    };
    let output_root = match text_setting(value, "output_root") {
        Some(s) => s,
        None => {
            return Err(SettingsError::OutputRoot);
        },
    };
    let mode = match value.get("source_mode") {
        Some(v) => match v.text() {
            Some(s) => source_mode(s),
            None => {
                return Err(SettingsError::SourceMode);
            },
        },
        None => source_mode("auto"),
    };
    let monitor_endpoint = match text_setting(value, "monitor_endpoint") {
        Some(s) => s,
        None => {
            return Err(SettingsError::MonitorEndpoint);
        },
    };
    let save_raw = match value.get("save_raw") {
        Some(v) => match v.flag() {
            Some(b) => b,
            None => {
                return Err(SettingsError::SaveRaw);
            },
        },
        None => true,
    };
    let mouth_offset_m = match value.get("mouth_offset_m") {
        Some(v) => match math::vec3(v) {
            Some(offset) => offset,
            None => {
                return Err(SettingsError::OffsetShape);
            },
        },
        None => Vec3 { x: 0, y: DEFAULT_UP, z: DEFAULT_FRONT },
    };
    if !mouth_offset_m.within_one() {
        return Err(SettingsError::Offset);
    }
    match mode {
        Some(source_mode) => Ok(
            Settings {
                endpoint_id,
                output_root,
                channel,
                gain_db,
                save_raw,
                source_mode,
                mouth_offset_m,
                monitor_endpoint,
            },
        ),
        None => Err(SettingsError::Mode),
    }
}

/// The name of a mode.
pub open spec fn mode_name(mode: SourceMode) -> Seq<char> {
    match mode {
        SourceMode::Auto => "auto"@,
        SourceMode::HeadOffset => "head_offset"@,
        SourceMode::MouthProbe => "mouth_probe"@,
    }
}

/// The name of a mode.
pub fn name_of_mode(mode: SourceMode) -> (res: &'static str)
    ensures
        res@ == mode_name(mode),
{
    match mode {
        SourceMode::Auto => "auto",
        SourceMode::HeadOffset => "head_offset",
        SourceMode::MouthProbe => "mouth_probe",
    }
}

/// A number that is no integer to its readers.
pub open spec fn fractional(bits: u64) -> Tree {
    Tree::Number(Number { signed: None, unsigned: None, bits })
}

/// A small integer.
pub open spec fn count(n: u64) -> Tree {
    Tree::Number(
        Number { signed: Some(n as i64), unsigned: Some(n), bits: bits::integer_bits(n as int) },
    )
}

/// Settings as a document.
pub open spec fn document_of(c: Choice) -> Tree {
    Tree::Object(
        seq![
            ("schema_version"@, count(1)),
            ("endpoint_id"@, Tree::Text(c.endpoint_id)),
            ("output_root"@, Tree::Text(c.output_root)),
            ("channel"@, count(c.channel)),
            ("gain_db"@, fractional(c.gain_db)),
            ("save_raw"@, Tree::Bool(c.save_raw)),
            ("source_mode"@, Tree::Text(mode_name(c.source_mode))),
            (
                "mouth_offset_m"@,
                Tree::Array(
                    seq![
                        fractional(c.mouth_offset_m.x),
                        fractional(c.mouth_offset_m.y),
                        fractional(c.mouth_offset_m.z),
                    ],
                ),
            ),
            ("monitor_endpoint"@, Tree::Text(c.monitor_endpoint)),
        ],
    )
}

fn fractional_json(bits: u64) -> (json: Json)
    ensures
        json@ == fractional(bits),
{
    Json::Number(Number { signed: None, unsigned: None, bits })
}

fn count_json(n: u32) -> (json: Json)
    requires
        n <= i32::MAX,
    ensures
        json@ == count(n as u64),
{
    Json::Number(
        Number {
            signed: Some(n as i64),
            unsigned: Some(n as u64),
            bits: bits::from_integer(n as i32),
        },
    )
}

impl Settings {
    /// The settings as a document.
    pub fn document(&self) -> (json: Json)
        requires
            self.channel <= 31,
        ensures
            json@ == document_of(self@),
    {
        let mut offset: Vec<Json> = Vec::new();
        offset.push(fractional_json(self.mouth_offset_m.x));
        offset.push(fractional_json(self.mouth_offset_m.y));
        offset.push(fractional_json(self.mouth_offset_m.z));
        let mut list: Vec<(String, Json)> = Vec::new();
        list.push(("schema_version".to_owned(), count_json(1)));
        list.push(("endpoint_id".to_owned(), Json::Text(self.endpoint_id.as_str().to_owned())));
        list.push(("output_root".to_owned(), Json::Text(self.output_root.as_str().to_owned())));
        list.push(("channel".to_owned(), count_json(self.channel as u32)));
        list.push(("gain_db".to_owned(), fractional_json(self.gain_db)));
        list.push(("save_raw".to_owned(), Json::Bool(self.save_raw)));
        list.push(
            ("source_mode".to_owned(), Json::Text(name_of_mode(self.source_mode).to_owned())),
        );
        let array = Json::Array(offset);
        proof {
            assert(array@->Array_0 =~= document_of(self@)->Object_0[7].1->Array_0);
        }
        list.push(("mouth_offset_m".to_owned(), array));
        list.push(
            ("monitor_endpoint".to_owned(), Json::Text(self.monitor_endpoint.as_str().to_owned())),
        );
        let json = Json::Object(list);
        proof {
            reveal_with_fuel(crate::json::tree, 2);
            let want = document_of(self@)->Object_0;
            let have = json@->Object_0;
            assert(have.len() == 9 && want.len() == 9);
            assert(have[0] == want[0]);
            assert(have[1] == want[1]);
            assert(have[2] == want[2]);
            assert(have[3] == want[3]);
            assert(have[4] == want[4]);
            assert(have[5] == want[5]);
            assert(have[6] == want[6]);
            assert(have[7] == want[7]);
            assert(have[8] == want[8]);
            assert(have =~= want);
        }
        json
    }
}

/// What a document says at a key, or what holds where it says nothing.
pub open spec fn given(t: Tree, key: Seq<char>, preset: Tree) -> Tree {
    match t.get(key) {
        Some(v) => v,
        None => preset,
    }
}

/// A document of settings with the defaults filled in, and with nothing else in it.
/// What it says is kept as it is written.
pub open spec fn settled(t: Tree) -> Tree {
    let preset = document_of(default_choice())->Object_0;
    Tree::Object(
        seq![
            preset[0],
            ("endpoint_id"@, given(t, "endpoint_id"@, preset[1].1)),
            ("output_root"@, given(t, "output_root"@, preset[2].1)),
            ("channel"@, given(t, "channel"@, preset[3].1)),
            ("gain_db"@, given(t, "gain_db"@, preset[4].1)),
            ("save_raw"@, given(t, "save_raw"@, preset[5].1)),
            ("source_mode"@, given(t, "source_mode"@, preset[6].1)),
            ("mouth_offset_m"@, given(t, "mouth_offset_m"@, preset[7].1)),
            ("monitor_endpoint"@, given(t, "monitor_endpoint"@, preset[8].1)),
        ],
    )
}

fn given_json(value: &Json, key: &str, preset: &Json) -> (json: Json)
    ensures
        json@ == given(value@, key@, preset@),
{
    match value.get(key) {
        Some(v) => copy(v),
        None => copy(preset),
    }
}

/// A document of settings as it is kept.
pub fn normalized(value: &Json) -> (res: Result<Json, SettingsError>)
    ensures
        res matches Err(e) ==> settings_of(value@) == Err::<Choice, _>(e),
        res matches Ok(json) ==> settings_of(value@) is Ok && json@ == settled(value@),
{
    match settings(value) {
        Ok(_) => {},
        Err(e) => {
            return Err(e);
        },
    }
    let preset = defaults().document();
    match &preset {
        Json::Object(members) => {
            proof {
                reveal_with_fuel(crate::json::tree, 2);
                assert(preset@->Object_0.len() == 9);
                assert(preset@->Object_0 == document_of(default_choice())->Object_0);
            }
            let ghost want = settled(value@)->Object_0;
            let mut list: Vec<(String, Json)> = Vec::new();
            list.push((members[0].0.as_str().to_owned(), copy(&members[0].1)));
            let mut i: usize = 1;
            while i < 9
                invariant
                    1 <= i <= 9,
                    list@.len() == i,
                    members@.len() == 9,
                    want == settled(value@)->Object_0,
                    document_of(default_choice())->Object_0 == crate::json::members(members@),
                    forall|k: int|
                        0 <= k < i ==> ((#[trigger] list@[k]).0@, list@[k].1@) == want[k],
                decreases 9 - i,
            {
                let (key, value_by_default) = &members[i];
                proof {
                    let preset = document_of(default_choice())->Object_0;
                    assert(preset[i as int] == (key@, value_by_default@));
                    assert(want[i as int] == (
                        preset[i as int].0,
                        given(value@, preset[i as int].0, preset[i as int].1),
                    ));
                }
                let json = given_json(value, key.as_str(), value_by_default);
                list.push((key.as_str().to_owned(), json));
                i += 1;
            }
            let json = Json::Object(list);
            assert(json@->Object_0 =~= want);
            Ok(json)
        },
        _ => Ok(preset),
    }
}

/// Settings that can be read.
pub open spec fn is_choice(c: Choice) -> bool {
    &&& bits::down_to_minus(c.gain_db, bits::SIXTY)
    &&& c.channel <= 31
    &&& c.mouth_offset_m.is_within_one()
}

proof fn keys_differ()
    ensures
        "schema_version"@.len() == 14,
        "endpoint_id"@.len() == 11 && "endpoint_id"@[0] == 'e',
        "output_root"@.len() == 11 && "output_root"@[0] == 'o',
        "channel"@.len() == 7 && "channel"@[0] == 'c',
        "gain_db"@.len() == 7 && "gain_db"@[0] == 'g',
        "save_raw"@.len() == 8,
        "source_mode"@.len() == 11 && "source_mode"@[0] == 's',
        "mouth_offset_m"@.len() == 14 && "mouth_offset_m"@[0] == 'm',
        "schema_version"@[0] == 's',
        "monitor_endpoint"@.len() == 16,
        "auto"@.len() == 4,
        "head_offset"@.len() == 11 && "head_offset"@[0] == 'h',
        "mouth_probe"@.len() == 11 && "mouth_probe"@[0] == 'm',
{
    reveal_strlit("schema_version");
    reveal_strlit("endpoint_id");
    reveal_strlit("output_root");
    reveal_strlit("channel");
    reveal_strlit("gain_db");
    reveal_strlit("save_raw");
    reveal_strlit("source_mode");
    reveal_strlit("mouth_offset_m");
    reveal_strlit("monitor_endpoint");
    reveal_strlit("auto");
    reveal_strlit("head_offset");
    reveal_strlit("mouth_probe");
}

/// Settings that are written down are read back as they were; so to read settings is
/// to bring them into a form that does not change any more. The defaults are such
/// settings, and an empty document holds them.
pub proof fn settings_survive_being_saved(c: Choice)
    requires
        is_choice(c),
    ensures
        settings_of(document_of(c)) == Ok::<_, SettingsError>(c),
        is_choice(default_choice()),
        settings_of(Tree::Object(Seq::empty())) == Ok::<_, SettingsError>(default_choice()),
{
    keys_differ();
    let m = document_of(c)->Object_0;
    assert(m.len() == 9);
    found_at(m, 1);
    found_at(m, 2);
    found_at(m, 3);
    found_at(m, 4);
    found_at(m, 5);
    found_at(m, 6);
    found_at(m, 7);
    found_at(m, 8);
    let offset = m[7].1;
    assert(math::listed(offset, 3) == Some(
        seq![c.mouth_offset_m.x, c.mouth_offset_m.y, c.mouth_offset_m.z],
    )) by {
        let list = offset->Array_0;
        assert(list.len() == 3);
        assert(Seq::new(3, |i: int| list[i].bits()->0) =~= seq![
            c.mouth_offset_m.x,
            c.mouth_offset_m.y,
            c.mouth_offset_m.z,
        ]);
    }
    assert(pose::mode_named(mode_name(c.source_mode)) == Some(c.source_mode));
    assert(bits::magnitude(0u64) == 0);
}

/// To fill in the defaults changes no setting, and to do it again changes nothing.
pub proof fn filling_in_changes_no_setting(t: Tree)
    requires
        settings_of(t) is Ok,
    ensures
        settings_of(settled(t)) == settings_of(t),
        settled(settled(t)) == settled(t),
{
    keys_differ();
    settings_survive_being_saved(default_choice());
    let preset = document_of(default_choice())->Object_0;
    let m = settled(t)->Object_0;
    assert(m.len() == 9);
    found_at(m, 1);
    found_at(m, 2);
    found_at(m, 3);
    found_at(m, 4);
    found_at(m, 5);
    found_at(m, 6);
    found_at(m, 7);
    found_at(m, 8);
    found_at(preset, 7);
    assert(settled(settled(t))->Object_0 =~= m);
    assert(math::vec3_in(preset[7].1) == Some(default_offset()));
}

/// What stands at a key that does not occur before is found there.
proof fn found_at(m: Seq<(Seq<char>, Tree)>, k: int)
    requires
        0 <= k < m.len(),
        forall|i: int| 0 <= i < k ==> (#[trigger] m[i]).0 != m[k].0,
    ensures
        crate::json::find(m, m[k].0) == Some(m[k].1),
    decreases m.len(),
{
    if k > 0 {
        assert(m[0].0 != m[k].0);
        let rest = m.drop_first();
        assert forall|i: int| 0 <= i < k - 1 implies (#[trigger] rest[i]).0 != rest[k - 1].0 by {
            assert(m[i + 1].0 != m[k].0);
        }
        found_at(rest, k - 1);
    }
}

/// The settings that a recording is processed again with: its own, but for what the
/// options say of channel, gain, source mode and offset.
pub open spec fn merged(config: Choice, options: Tree) -> Result<Choice, SettingsError> {
    let gain_db = match options.get("gain_db"@) {
        Some(v) => v.bits(),
        None => Some(config.gain_db),
    };
    let channel = match options.get("channel"@) {
        Some(v) => v.unsigned(),
        None => Some(config.channel),
    };
    let mode = match options.get("source_mode"@) {
        Some(v) => v.text(),
        None => Some(mode_name(config.source_mode)),
    };
    let offset = match options.get("mouth_offset_m"@) {
        Some(v) => math::vec3_in(v),
        None => Some(config.mouth_offset_m),
    };
    if gain_db is None {
        Err(SettingsError::Gain)
    } else if channel is None {
        Err(SettingsError::Channel)
    } else if !bits::down_to_minus(gain_db->0, bits::SIXTY) || channel->0 > 31 {
        Err(SettingsError::Recording)
    } else if mode is None {
        Err(SettingsError::SourceMode)
    } else if offset is None {
        Err(SettingsError::OffsetShape)
    } else if !offset->0.is_within_one() {
        Err(SettingsError::Offset)
    } else if pose::mode_named(mode->0) is None {
        Err(SettingsError::Mode)
    } else {
        Ok(
            Choice {
                channel: channel->0,
                gain_db: gain_db->0,
                source_mode: pose::mode_named(mode->0)->0,
                mouth_offset_m: offset->0,
                ..config
            },
        )
    }
}

/// The settings that a recording is processed again with.
pub fn with_options(config: Settings, options: &Json) -> (res: Result<Settings, SettingsError>)
    ensures
        res matches Err(e) ==> merged(config@, options@) == Err::<Choice, _>(e),
        res matches Ok(s) ==> merged(config@, options@) == Ok::<_, SettingsError>(s@),
{
    let gain_db: u64 = match options.get("gain_db") {
        Some(v) => match v.bits() {
            Some(n) => n,
            None => {
                return Err(SettingsError::Gain);
            },
        },
        None => config.gain_db,
    };
    let channel: u64 = match options.get("channel") {
        Some(v) => match v.unsigned() {
            Some(n) => n,
            None => {
                return Err(SettingsError::Channel);
            },
        },
        None => config.channel,
    };
    if !gain(gain_db) || channel > 31 {
        return Err(SettingsError::Recording);
    }
    proof {
        keys_differ();
        assert(pose::mode_named(mode_name(config.source_mode)) == Some(config.source_mode));
    }
    let mode = match options.get("source_mode") {
        Some(v) => match v.text() {
            Some(s) => source_mode(s),
            None => {
                return Err(SettingsError::SourceMode);
            },
        },
        None => Some(config.source_mode),
    };
    let mouth_offset_m = match options.get("mouth_offset_m") {
        Some(v) => match math::vec3(v) {
            Some(offset) => offset,
            None => {
                return Err(SettingsError::OffsetShape);
            },
        },
        None => config.mouth_offset_m,
    };
    if !mouth_offset_m.within_one() {
        return Err(SettingsError::Offset);
    }
    match mode {
        Some(source_mode) => Ok(
            Settings { channel, gain_db, source_mode, mouth_offset_m, ..config },
        ),
        None => Err(SettingsError::Mode),
    }
}

/// What the options name is taken from them, and what they do not name from the recording:
/// channel, gain, source mode and offset. All else is the recording's own.
pub proof fn options_replace_what_they_name(config: Choice, options: Tree)
    ensures
        merged(config, options) matches Ok(c) ==> {
            &&& options.get("channel"@) matches Some(v) ==> v.unsigned() == Some(c.channel)
            &&& options.get("channel"@) is None ==> c.channel == config.channel
            &&& options.get("gain_db"@) matches Some(v) ==> v.bits() == Some(c.gain_db)
            &&& options.get("gain_db"@) is None ==> c.gain_db == config.gain_db
            &&& options.get("source_mode"@) matches Some(v) ==> v.text() == Some(
                mode_name(c.source_mode),
            )
            &&& options.get("source_mode"@) is None ==> c.source_mode == config.source_mode
            &&& options.get("mouth_offset_m"@) matches Some(v) ==> lists(v, c.mouth_offset_m)
            &&& options.get("mouth_offset_m"@) is None ==> c.mouth_offset_m
                == config.mouth_offset_m
            &&& c.endpoint_id == config.endpoint_id
            &&& c.output_root == config.output_root
            &&& c.save_raw == config.save_raw
            &&& c.monitor_endpoint == config.monitor_endpoint
            &&& c.channel <= 31
            &&& c.gain_db == 0 || 0x8000_0000_0000_0000 <= c.gain_db <= 0xc04e_0000_0000_0000
        },
        is_choice(config) && options == Tree::Object(Seq::empty()) ==> merged(config, options)
            == Ok::<_, SettingsError>(config),
{
    keys_differ();
    assert(pose::mode_named(mode_name(config.source_mode)) == Some(config.source_mode));
    match options.get("mouth_offset_m"@) {
        Some(v) => {
            math::vectors_are_listed(v);
        },
        None => {},
    }
    match options.get("source_mode"@) {
        Some(v) => if v.text() is Some {
            pose::modes_have_their_names(v.text()->0);
        },
        None => {},
    }
}

/// A document lists the three numbers of a vector.
pub open spec fn lists(t: Tree, v: Vec3) -> bool {
    &&& t.items() matches Some(list)
    &&& list.len() == 3
    &&& list[0].bits() == Some(v.x)
    &&& list[1].bits() == Some(v.y)
    &&& list[2].bits() == Some(v.z)
}

/// Each setting is the one that the document names, or else the usual one: no device, no
/// folder, the first channel, -18 decibels, raw data saved, the source that fits, and the
/// mouth 6.4 millimetres above and 73.6 in front of the eyes.
pub proof fn settings_are_what_the_document_says(t: Tree)
    ensures
        settings_of(t) matches Ok(c) ==> {
            &&& t is Object
            &&& t.get("endpoint_id"@) matches Some(v) ==> v == Tree::Text(c.endpoint_id)
            &&& t.get("endpoint_id"@) is None ==> c.endpoint_id.len() == 0
            &&& t.get("output_root"@) matches Some(v) ==> v == Tree::Text(c.output_root)
            &&& t.get("output_root"@) is None ==> c.output_root.len() == 0
            &&& t.get("monitor_endpoint"@) matches Some(v) ==> v == Tree::Text(
                c.monitor_endpoint,
            )
            &&& t.get("monitor_endpoint"@) is None ==> c.monitor_endpoint.len() == 0
            &&& t.get("channel"@) matches Some(v) ==> v.unsigned() == Some(c.channel)
            &&& t.get("channel"@) is None ==> c.channel == 0
            &&& t.get("gain_db"@) matches Some(v) ==> v.bits() == Some(c.gain_db)
            &&& t.get("gain_db"@) is None ==> c.gain_db == 0xc032_0000_0000_0000
            &&& t.get("save_raw"@) matches Some(v) ==> v == Tree::Bool(c.save_raw)
            &&& t.get("save_raw"@) is None ==> c.save_raw
            &&& t.get("source_mode"@) matches Some(v) ==> v == Tree::Text(
                mode_name(c.source_mode),
            )
            &&& t.get("source_mode"@) is None ==> c.source_mode == SourceMode::Auto
            &&& t.get("mouth_offset_m"@) matches Some(v) ==> lists(v, c.mouth_offset_m)
            &&& t.get("mouth_offset_m"@) is None ==> c.mouth_offset_m == (Vec3 {
                x: 0,
                y: 0x3f7a_36e2_eb1c_432d,
                z: 0xbfb2_d773_18fc_5048,
            })
            &&& c.channel <= 31
            &&& c.gain_db == 0 || 0x8000_0000_0000_0000 <= c.gain_db <= 0xc04e_0000_0000_0000
        },
        mode_name(SourceMode::Auto) == "auto"@,
        mode_name(SourceMode::HeadOffset) == "head_offset"@,
        mode_name(SourceMode::MouthProbe) == "mouth_probe"@,
{
    keys_differ();
    match t.get("mouth_offset_m"@) {
        Some(v) => {
            math::vectors_are_listed(v);
        },
        None => {},
    }
    match t.get("source_mode"@) {
        Some(v) => if v.text() is Some {
            pose::modes_have_their_names(v.text()->0);
        },
        None => {},
    }
}

/// Settings that break one rule alone are refused for it.
pub proof fn settings_are_refused_for_what_is_wrong(t: Tree)
    requires
        t is Object,
    ensures
        (t.get("gain_db"@) matches Some(v) && v.bits() is None) ==> settings_of(t) == Err::<
            Choice,
            _,
        >(SettingsError::Gain),
        t.get("gain_db"@) is None && (t.get("channel"@) matches Some(v) && v.unsigned() is None)
            ==> settings_of(t) == Err::<Choice, _>(SettingsError::Channel),
        t.get("gain_db"@) is None && (t.get("channel"@) matches Some(v) && v.unsigned() matches Some(
            n,
        ) && n > 31) ==> settings_of(t) == Err::<Choice, _>(SettingsError::Recording),
        t.get("channel"@) is None && (t.get("gain_db"@) matches Some(v) && v.bits() matches Some(
            db,
        ) && db != 0 && !(0x8000_0000_0000_0000 <= db <= 0xc04e_0000_0000_0000)) ==> settings_of(
            t,
        ) == Err::<Choice, _>(SettingsError::Recording),
        settings_of(t) is Ok ==> (t.get("save_raw"@) matches Some(v) ==> v is Bool),
{
}

/// A document of settings names each of them with its own key, and says which form it has.
pub proof fn documents_name_every_setting(c: Choice)
    requires
        is_choice(c),
    ensures
        ({
            let t = document_of(c);
            &&& t.get("schema_version"@) matches Some(v) && v.unsigned() == Some(1u64)
            &&& t.get("endpoint_id"@) == Some(Tree::Text(c.endpoint_id))
            &&& t.get("output_root"@) == Some(Tree::Text(c.output_root))
            &&& t.get("channel"@) matches Some(v) && v.unsigned() == Some(c.channel)
            &&& t.get("gain_db"@) matches Some(v) && v.bits() == Some(c.gain_db)
            &&& t.get("save_raw"@) == Some(Tree::Bool(c.save_raw))
            &&& t.get("source_mode"@) == Some(Tree::Text(mode_name(c.source_mode)))
            &&& t.get("mouth_offset_m"@) matches Some(v) && lists(v, c.mouth_offset_m)
            &&& t.get("monitor_endpoint"@) == Some(Tree::Text(c.monitor_endpoint))
        }),
{
    keys_differ();
    let m = document_of(c)->Object_0;
    found_at(m, 0);
    found_at(m, 1);
    found_at(m, 2);
    found_at(m, 3);
    found_at(m, 4);
    found_at(m, 5);
    found_at(m, 6);
    found_at(m, 7);
    found_at(m, 8);
}

/// What a document says is kept as it says it, and what it leaves out is filled in.
pub proof fn kept_settings_say_the_same(t: Tree)
    ensures
        ({
            let kept = settled(t);
            &&& t.get("endpoint_id"@) is Some ==> kept.get("endpoint_id"@) == t.get(
                "endpoint_id"@,
            )
            &&& t.get("output_root"@) is Some ==> kept.get("output_root"@) == t.get(
                "output_root"@,
            )
            &&& t.get("channel"@) is Some ==> kept.get("channel"@) == t.get("channel"@)
            &&& t.get("gain_db"@) is Some ==> kept.get("gain_db"@) == t.get("gain_db"@)
            &&& t.get("save_raw"@) is Some ==> kept.get("save_raw"@) == t.get("save_raw"@)
            &&& t.get("source_mode"@) is Some ==> kept.get("source_mode"@) == t.get(
                "source_mode"@,
            )
            &&& t.get("mouth_offset_m"@) is Some ==> kept.get("mouth_offset_m"@) == t.get(
                "mouth_offset_m"@,
            )
            &&& t.get("monitor_endpoint"@) is Some ==> kept.get("monitor_endpoint"@) == t.get(
                "monitor_endpoint"@,
            )
            &&& kept->Object_0.len() == 9
            &&& kept.get("schema_version"@) matches Some(v) && v.unsigned() == Some(1u64)
            &&& t.get("gain_db"@) is None ==> (kept.get("gain_db"@) matches Some(v) && v.bits()
                == Some(0xc032_0000_0000_0000u64))
            &&& t.get("save_raw"@) is None ==> kept.get("save_raw"@) == Some(Tree::Bool(true))
            &&& t.get("source_mode"@) is None ==> kept.get("source_mode"@) == Some(
                Tree::Text("auto"@),
            )
        }),
{
    keys_differ();
    let m = settled(t)->Object_0;
    found_at(m, 0);
    found_at(m, 1);
    found_at(m, 2);
    found_at(m, 3);
    found_at(m, 4);
    found_at(m, 5);
    found_at(m, 6);
    found_at(m, 7);
    found_at(m, 8);
}

/// What can be done with a recording is told by its state first, then by its raw audio, and
/// then by its kind and its logs.
pub proof fn prospects_are_told_in_order(
    kind: Seq<char>,
    status: Seq<char>,
    raw: bool,
    logs: bool,
)
    ensures
        prospect_of(kind, status, raw, logs) == Prospect::Recording <==> status == "recording"@
            || status == "initializing"@ || status == "running"@,
        prospect_of(kind, status, raw, logs) == Prospect::HeardOnly ==> !raw,
        prospect_of(kind, status, raw, logs) == Prospect::Complete <==> {
            &&& status != "recording"@ && status != "initializing"@ && status != "running"@
            &&& raw && logs
            &&& kind == "native_obs_ring_take"@ || kind == "native_obs_live_session"@ || kind
                == "vr_diagnostic_take"@
        },
        status != "recording"@ && status != "initializing"@ && status != "running"@ && !raw
            ==> prospect_of(kind, status, raw, logs) == Prospect::HeardOnly,
{
}

/// What can be done with a recording.
#[derive(Clone, Copy, PartialEq, Eq, Structural, Debug)]
pub enum Prospect {
    /// It is still being made.
    Recording,
    /// Only what was heard was saved.
    HeardOnly,
    /// Too little was saved to process it again.
    Incomplete,
    /// It can be processed again.
    Complete,
}

/// A recording of a kind that can be processed again.
pub open spec fn is_supported(kind: Seq<char>) -> bool {
    kind == "native_obs_ring_take"@ || kind == "native_obs_live_session"@ || kind
        == "vr_diagnostic_take"@
}

/// A recording that is not being made any more.
pub open spec fn is_ended(status: Seq<char>) -> bool {
    status != "recording"@ && status != "initializing"@ && status != "running"@
}

/// What can be done with a recording of a kind, in a state, with raw audio and logs or
/// without.
pub open spec fn prospect_of(kind: Seq<char>, status: Seq<char>, raw: bool, logs: bool) -> Prospect {
    if !is_ended(status) {
        Prospect::Recording
    } else if !raw {
        Prospect::HeardOnly
    } else if !is_supported(kind) || !logs {
        Prospect::Incomplete
    } else {
        Prospect::Complete
    }
}

/// What can be done with a recording, by what its manifest says and which of its files
/// are there. Events may stand in either of two files.
pub fn inspect(
    manifest: &Json,
    raw: bool,
    clock: bool,
    events: bool,
    legacy_events: bool,
) -> (res: Prospect)
    ensures
        res == prospect_of(
            manifest_text(manifest@, "kind"@),
            manifest_text(manifest@, "status"@),
            raw,
            clock && (events || legacy_events),
        ),
{
    let kind = text_or_nothing(manifest, "kind");
    let status = text_or_nothing(manifest, "status");
    if same(&status, "recording") || same(&status, "initializing") || same(&status, "running") {
        return Prospect::Recording;
    }
    if !raw {
        return Prospect::HeardOnly;
    }
    let supported = same(&kind, "native_obs_ring_take") || same(&kind, "native_obs_live_session")
        || same(&kind, "vr_diagnostic_take");
    if !supported || !(clock && (events || legacy_events)) {
        return Prospect::Incomplete;
    }
    Prospect::Complete
}

/// The text at a key, or nothing.
pub open spec fn manifest_text(t: Tree, key: Seq<char>) -> Seq<char> {
    match t.text_at(key) {
        Some(s) => s,
        None => Seq::empty(),
    }
}

/// The text at a key, or nothing.
pub fn text_or_nothing(json: &Json, key: &str) -> (res: String)
    ensures
        res@ == manifest_text(json@, key@),
{
    match json.text_at(key) {
        Some(s) => s.as_str().to_owned(),
        None => String::new(),
    }
}

impl Prospect {
    /// What is shown for the prospect.
    pub fn text(&self) -> (res: &'static str)
        ensures
            res@ == (match *self {
                Prospect::Recording => "録音停止後に再処理できます"@,
                Prospect::HeardOnly => "原音なし：処理済み音声のみ試聴できます"@,
                Prospect::Incomplete => "再処理に必要な記録が不足しています"@,
                Prospect::Complete => "原音と位置データから再処理できます"@,
            }),
    {
        match self {
            Prospect::Recording => "録音停止後に再処理できます",
            Prospect::HeardOnly => "原音なし：処理済み音声のみ試聴できます",
            Prospect::Incomplete => "再処理に必要な記録が不足しています",
            Prospect::Complete => "原音と位置データから再処理できます",
        }
    }
}

/// A recording can be processed again exactly if it has ended, is of a kind that can
/// be, and has its raw audio and its logs.
pub proof fn complete_recordings_can_be_processed(
    kind: Seq<char>,
    status: Seq<char>,
    raw: bool,
    logs: bool,
)
    ensures
        prospect_of(kind, status, raw, logs) == Prospect::Complete <==> is_supported(kind)
            && is_ended(status) && raw && logs,
{
}

} // verus!
