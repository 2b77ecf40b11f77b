//! Where recordings may be and what they may be called.
use crate::text;
use crate::text::{chars_of, relate, same, starts_with, Relation};
use vstd::prelude::*;
use vstd::utf8::is_ascii_chars;

verus! {

broadcast use vstd::string::group_string_axioms;

/// Why a path is refused.
#[derive(Clone, Copy, PartialEq, Eq, Structural, Debug)]
pub enum PathError {
    /// The path is empty, or leads elsewhere than down.
    Escapes,
    /// A link leads out of the recording.
    Link,
}

/// A component of a path.
#[derive(Debug)]
pub enum Part {
    /// A name.
    Normal(String),
    /// The place itself.
    Current,
    /// The place above, the root or a drive.
    Other,
}

/// Texts by their contents.
pub open spec fn contents(list: Seq<String>) -> Seq<Seq<char>> {
    Seq::new(list.len(), |i: int| list[i]@)
}

/// A path begins with another.
pub open spec fn inside(base: Seq<Seq<char>>, path: Seq<Seq<char>>) -> bool {
    base.len() <= path.len() && path.take(base.len() as int) == base
}

/// A path leads down and nowhere else.
pub open spec fn leads_down(parts: Seq<Part>) -> bool {
    parts.len() > 0 && forall|i: int| 0 <= i < parts.len() ==> !(#[trigger] parts[i] is Other)
}

/// Where a component leads from a place.
pub open spec fn followed(at: Seq<Seq<char>>, part: Part) -> Seq<Seq<char>> {
    match part {
        Part::Normal(name) => at.push(name@),
        _ => at,
    }
}

/// A path below a folder that is followed component by component.
#[derive(Debug)]
pub struct Walk {
    base: Vec<String>,
    path: Vec<String>,
    rest: Vec<Part>,
}

fn begins(base: &Vec<String>, path: &Vec<String>) -> (res: bool)
    ensures
        res == inside(contents(base@), contents(path@)),
{
    if base.len() > path.len() {
        return false;
    }
    let mut i: usize = 0;
    while i < base.len()
        invariant
            base.len() <= path.len(),
            i <= base.len(),
            forall|k: int| 0 <= k < i ==> (#[trigger] base@[k])@ == path@[k]@,
        decreases base.len() - i,
    {
        if !same(&base[i], &path[i]) {
            proof {
                let part = contents(path@).take(base@.len() as int);
                assert(part[i as int] != contents(base@)[i as int]);
            }
            return false;
        }
        i += 1;
    }
    proof {
        let part = contents(path@).take(base@.len() as int);
        assert forall|k: int| 0 <= k < base@.len() implies part[k] == contents(base@)[k] by {
            assert(base@[k]@ == path@[k]@);
        }
        assert(part =~= contents(base@));
    }
    true
}

fn copied(list: &Vec<String>) -> (res: Vec<String>)
    ensures
        contents(res@) == contents(list@),
{
    let mut res: Vec<String> = Vec::new();
    while res.len() < list.len()
        invariant
            res.len() <= list.len(),
            forall|k: int| 0 <= k < res.len() ==> (#[trigger] res@[k])@ == list@[k]@,
        decreases list.len() - res.len(),
    {
        res.push(list[res.len()].as_str().to_owned());
    }
    assert(contents(res@) =~= contents(list@));
    res
}

/// Whether a path leads down and nowhere else.
fn is_downward(parts: &Vec<Part>) -> (res: bool)
    ensures
        res == leads_down(parts@),
{
    if parts.len() == 0 {
        return false;
    }
    let mut i: usize = 0;
    while i < parts.len()
        invariant
            i <= parts.len(),
            forall|k: int| 0 <= k < i ==> !(#[trigger] parts@[k] is Other),
        decreases parts.len() - i,
    {
        match &parts[i] {
            Part::Other => {
                assert(parts@[i as int] is Other);
                return false;
            },
            _ => {},
        }
        i += 1;
    }
    true
}

impl Walk {
    /// The folder that must not be left.
    pub closed spec fn base(&self) -> Seq<Seq<char>> {
        contents(self.base@)
    }

    /// How far the path has been followed.
    pub closed spec fn at(&self) -> Seq<Seq<char>> {
        contents(self.path@)
    }

    /// What is still to be followed.
    pub closed spec fn ahead(&self) -> Seq<Part> {
        self.rest@
    }

    /// The folder has not been left.
    pub closed spec fn wf(&self) -> bool {
        inside(contents(self.base@), contents(self.path@)) && forall|i: int|
            0 <= i < self.rest@.len() ==> !(#[trigger] self.rest@[i] is Other)
    }

    /// Whatever was followed, the folder has not been left.
    pub proof fn stays_inside(&self)
        requires
            self.wf(),
        ensures
            inside(self.base(), self.at()),
    {
    }

    /// Begins at a folder, with the components of a path below it.
    pub fn child(base: Vec<String>, parts: Vec<Part>) -> (res: Result<Walk, PathError>)
        ensures
            leads_down(parts@) ==> (res matches Ok(w) && w.wf() && w.base() == contents(base@)
                && w.at() == contents(base@) && w.ahead() == parts@),
            !leads_down(parts@) ==> res == Err::<Walk, _>(PathError::Escapes),
    {
        if !is_downward(&parts) {
            return Err(PathError::Escapes);
        }
        let path = copied(&base);
        assert(contents(path@).take(base@.len() as int) =~= contents(base@));
        Ok(Walk { base, path, rest: parts })
    }

    /// Follows the next component, if there is one.
    pub fn advance(&mut self) -> (moved: bool)
        requires
            old(self).wf(),
        ensures
            final(self).wf(),
            final(self).base() == old(self).base(),
            moved == (old(self).ahead().len() > 0),
            !moved ==> final(self).at() == old(self).at() && final(self).ahead() == old(
                self,
            ).ahead(),
            moved ==> final(self).ahead() == old(self).ahead().drop_first(),
            moved ==> final(self).at() == followed(old(self).at(), old(self).ahead()[0]),
    {
        if self.rest.len() == 0 {
            return false;
        }
        let ghost before = self.rest@;
        let ghost was = self.at();
        let next = self.rest.remove(0);
        proof {
            assert(self.rest@ =~= before.drop_first());
            assert forall|i: int| 0 <= i < self.rest@.len() implies !(#[trigger]
            self.rest@[i] is Other) by {
                assert(!(before[i + 1] is Other));
            }
        }
        match next {
            Part::Normal(name) => {
                self.path.push(name);
                proof {
                    assert(contents(self.path@) =~= was.push(name@));
                    let n = self.base@.len() as int;
                    assert(contents(self.path@).take(n) =~= was.take(n));
                }
            },
            _ => {},
        }
        true
    }

    /// What the path followed so far leads to, links resolved.
    pub fn resolved(&mut self, path: Vec<String>) -> (res: Result<(), PathError>)
        requires
            old(self).wf(),
        ensures
            final(self).wf(),
            final(self).base() == old(self).base(),
            final(self).ahead() == old(self).ahead(),
            inside(old(self).base(), contents(path@)) ==> res is Ok && final(self).at() == contents(
                path@,
            ),
            !inside(old(self).base(), contents(path@)) ==> res == Err::<(), _>(PathError::Link)
                && final(self).at() == old(self).at(),
    {
        if !begins(&self.base, &path) {
            return Err(PathError::Link);
        }
        self.path = path;
        Ok(())
    }

    /// The path followed so far.
    pub fn path(&self) -> (res: &Vec<String>)
        ensures
            contents(res@) == self.at(),
    {
        &self.path
    }
}

/// What is played of a recording.
#[derive(Clone, Copy, PartialEq, Eq, Structural, Debug)]
pub enum AudioSource {
    /// What the microphone recorded.
    Original,
    /// What was processed last.
    Latest,
    /// What was heard while recording.
    Live,
}

/// Why nothing can be played.
#[derive(Clone, Copy, PartialEq, Eq, Structural, Debug)]
pub enum AudioError {
    /// The original was not saved.
    NoOriginal,
    /// Nothing was processed yet.
    NoAudio,
    /// What points to the latest audio is none.
    Pointer,
    /// What points to the latest audio leads out of the recording.
    Escapes,
}

/// What points to the audio that was processed last.
#[derive(Clone, Copy, PartialEq, Eq, Structural, Debug)]
pub enum Pointer {
    /// Nothing does.
    Absent,
    /// It names no path.
    Invalid,
    /// It leads out of the recording.
    Escaping,
    /// The audio that it names is not there.
    Missing,
    /// The audio that it names is there.
    Present,
}

/// What a pointer is that names such a path. `link` is whether a link on the way leads out
/// of the recording, and `is_file` whether there is a file at the end.
pub open spec fn pointed(output: Option<Seq<Part>>, link: bool, is_file: bool) -> Pointer {
    match output {
        None => Pointer::Invalid,
        Some(parts) => if !leads_down(parts) || link {
            Pointer::Escaping
        } else if is_file {
            Pointer::Present
        } else {
            Pointer::Missing
        },
    }
}

/// What a pointer is, by the components of the path that it names, if it names one.
pub fn pointer(output: Option<&Vec<Part>>, link: bool, is_file: bool) -> (res: Pointer)
    ensures
        res == pointed(
            match output {
                Some(parts) => Some(parts@),
                None => None,
            },
            link,
            is_file,
        ),
{
    match output {
        None => Pointer::Invalid,
        Some(parts) => if !is_downward(parts) || link {
            Pointer::Escaping
        } else if is_file {
            Pointer::Present
        } else {
            Pointer::Missing
        },
    }
}

/// What is played of a recording: the original if it is asked for, else what was
/// processed last, else what was heard. Each counts if its file is there.
pub open spec fn played(original: bool, raw: bool, latest: Pointer, live: bool) -> Result<
    AudioSource,
    AudioError,
> {
    if original {
        if raw {
            Ok(AudioSource::Original)
        } else {
            Err(AudioError::NoOriginal)
        }
    } else {
        match latest {
            Pointer::Invalid => Err(AudioError::Pointer),
            Pointer::Escaping => Err(AudioError::Escapes),
            Pointer::Present => Ok(AudioSource::Latest),
            _ => if live {
                Ok(AudioSource::Live)
            } else {
                Err(AudioError::NoAudio)
            },
        }
    }
}

/// What is played of a recording. A pointer that is none, or leads out of the recording,
/// is an error, whatever else there is to hear.
pub fn audio_path(original: bool, raw: bool, latest: Pointer, live: bool) -> (res: Result<
    AudioSource,
    AudioError,
>)
    ensures
        res == played(original, raw, latest, live),
{
    if original {
        return if raw {
            Ok(AudioSource::Original)
        } else {
            Err(AudioError::NoOriginal)
        };
    }
    match latest {
        Pointer::Invalid => Err(AudioError::Pointer),
        Pointer::Escaping => Err(AudioError::Escapes),
        Pointer::Present => Ok(AudioSource::Latest),
        _ => if live {
            Ok(AudioSource::Live)
        } else {
            Err(AudioError::NoAudio)
        },
    }
}

/// A pointer that leads out of the recording is an error and no reason to play something
/// else: neither a path with a step up, a root or a drive in it, nor one with a link that
/// leads out is followed, whatever files there are.
pub proof fn escaping_pointers_are_errors(
    parts: Seq<Part>,
    i: int,
    link: bool,
    is_file: bool,
    raw: bool,
    live: bool,
)
    requires
        link || (0 <= i < parts.len() && parts[i] is Other),
    ensures
        played(false, raw, pointed(Some(parts), link, is_file), live) == Err::<AudioSource, _>(
            AudioError::Escapes,
        ),
{
}

/// Why a name is refused.
#[derive(Clone, Copy, PartialEq, Eq, Structural, Debug)]
pub enum NameError {
    /// It is empty or too long.
    Length,
    /// It has characters that names cannot have, or ends in a space or a dot.
    Characters,
    /// It means a device.
    Reserved,
}

/// How many units a text has in UTF-16.
pub open spec fn units(t: Seq<char>) -> int
    decreases t.len(),
{
    if t.len() == 0 {
        0
    } else {
        units(t.drop_last()) + if t.last() as int >= 0x1_0000 {
            2int
        } else {
            1
        }
    }
}

/// A character that no name can have.
pub open spec fn is_forbidden(c: char) -> bool {
    ||| c as int <= 0x1f
    ||| 0x7f <= c as int <= 0x9f
    ||| c == '<'
    ||| c == '>'
    ||| c == ':'
    ||| c == '"'
    ||| c == '/'
    ||| c == '\\'
    ||| c == '|'
    ||| c == '?'
    ||| c == '*'
}

/// A name without characters that names cannot have.
pub open spec fn is_clean(name: Seq<char>) -> bool {
    &&& name != "."@
    &&& name != ".."@
    &&& name.len() > 0 ==> name.last() != ' ' && name.last() != '.'
    &&& forall|i: int| 0 <= i < name.len() ==> !is_forbidden(#[trigger] name[i])
}

/// White space.
pub open spec fn is_space(c: char) -> bool {
    let n = c as int;
    ||| 9 <= n <= 13
    ||| n == 0x20
    ||| n == 0x85
    ||| n == 0xa0
    ||| n == 0x1680
    ||| 0x2000 <= n <= 0x200a
    ||| n == 0x2028
    ||| n == 0x2029
    ||| n == 0x202f
    ||| n == 0x205f
    ||| n == 0x3000
}

/// A text without the white space that ends it.
pub open spec fn trimmed(t: Seq<char>) -> Seq<char>
    decreases t.len(),
{
    if t.len() > 0 && is_space(t.last()) {
        trimmed(t.drop_last())
    } else {
        t
    }
}

/// The part of a name before its first dot, without the white space that ends it.
pub open spec fn stem(name: Seq<char>) -> Seq<char> {
    trimmed(name.take(crate::query::place_of(name, '.', 0)))
}

/// The capital of a letter from a to z; any other character is left as it is.
pub open spec fn capital(c: char) -> char {
    if 'a' <= c <= 'z' {
        (c as u32 - 32) as char
    } else {
        c
    }
}

/// A text with each letter from a to z in capitals.
pub open spec fn capitals(t: Seq<char>) -> Seq<char> {
    t.map_values(|c: char| capital(c))
}

/// A text in capitals.
pub uninterp spec fn uppercase(t: Seq<char>) -> Seq<char>;

/// `str::to_uppercase`, which depends on the text alone, and of ASCII text changes the
/// letters from a to z.
#[verifier::external_body]
fn to_uppercase(t: &str) -> (res: String)
    ensures
        res@ == uppercase(t@),
        is_ascii_chars(t@) ==> res@ == capitals(t@),
{
    t.to_uppercase()
}

/// A text that names one of the numbered devices of a kind.
pub open spec fn is_numbered(stem: Seq<char>, kind: Seq<char>) -> bool {
    &&& stem.len() == kind.len() + 1
    &&& text::begins(stem, kind)
    &&& '1' <= stem.last() <= '9' || stem.last() == '¹' || stem.last() == '²' || stem.last() == '³'
}

/// A stem in capitals that means a device.
pub open spec fn means_device(stem: Seq<char>) -> bool {
    ||| stem == "CON"@
    ||| stem == "PRN"@
    ||| stem == "AUX"@
    ||| stem == "NUL"@
    ||| stem == "CONIN$"@
    ||| stem == "CONOUT$"@
    ||| is_numbered(stem, "COM"@)
    ||| is_numbered(stem, "LPT"@)
}

/// What is wrong with a name, if anything is. Its stem comes in capitals.
pub open spec fn name_fault(name: Seq<char>, capital: Seq<char>) -> Option<NameError> {
    if name.len() == 0 || units(name) > 255 {
        Some(NameError::Length)
    } else if !is_clean(name) {
        Some(NameError::Characters)
    } else if means_device(capital) {
        Some(NameError::Reserved)
    } else {
        None
    }
}

fn forbidden(c: char) -> (res: bool)
    ensures
        res == is_forbidden(c),
{
    let n: u32 = c as u32;
    n <= 0x1f || (0x7f <= n && n <= 0x9f) || c == '<' || c == '>' || c == ':' || c == '"' || c
        == '/' || c == '\\' || c == '|' || c == '?' || c == '*'
}

fn is_wide(c: char) -> (res: bool)
    ensures
        res == (c as int >= 0x1_0000),
{
    let n: u32 = c as u32;
    n >= 0x1_0000
}

fn space(c: char) -> (res: bool)
    ensures
        res == is_space(c),
{
    let n: u32 = c as u32;
    (9 <= n && n <= 13) || n == 0x20 || n == 0x85 || n == 0xa0 || n == 0x1680 || (0x2000 <= n && n
        <= 0x200a) || n == 0x2028 || n == 0x2029 || n == 0x202f || n == 0x205f || n == 0x3000
}

fn is_device_number(stem: &str, kind: &str) -> (res: bool)
    ensures
        res == is_numbered(stem@, kind@),
{
    let n: usize = kind.unicode_len();
    let t = chars_of(stem);
    if t.len() == 0 || t.len() - 1 != n || !starts_with(stem, kind) {
        return false;
    }
    let c: char = t[t.len() - 1];
    ('1' <= c && c <= '9') || c == '¹' || c == '²' || c == '³'
}

/// Whether a stem in capitals means a device.
pub fn reserved(stem: &str) -> (res: bool)
    ensures
        res == means_device(stem@),
{
    same(stem, "CON") || same(stem, "PRN") || same(stem, "AUX") || same(stem, "NUL") || same(
        stem,
        "CONIN$",
    ) || same(stem, "CONOUT$") || is_device_number(stem, "COM") || is_device_number(stem, "LPT")
}

/// The part of a name before its first dot, without the white space that ends it.
pub fn stem_of(name: &str) -> (res: String)
    ensures
        res@ == stem(name@),
{
    let t = chars_of(name);
    let mut n: usize = 0;
    while n < t.len() && t[n] != '.'
        invariant
            n <= t.len(),
            crate::query::place_of(t@, '.', 0) == crate::query::place_of(t@, '.', n as int),
        decreases t.len() - n,
    {
        n += 1;
    }
    let ghost whole = name@.take(n as int);
    assert(t@.take(n as int) =~= whole);
    while n > 0 && space(t[n - 1])
        invariant
            n <= t.len(),
            t@ == name@,
            trimmed(whole) == trimmed(t@.take(n as int)),
        decreases n,
    {
        assert(t@.take(n as int).drop_last() =~= t@.take(n - 1));
        assert(t@.take(n as int).last() == t@[n - 1]);
        n -= 1;
    }
    let res = name.substring_char(0, n).to_owned();
    proof {
        assert(res@ =~= t@.take(n as int));
        if n > 0 {
            assert(t@.take(n as int).last() == t@[n - 1]);
        }
    }
    res
}

/// What is wrong with a name, if anything is. `capital` is its stem in capitals.
pub fn fault(name: &str, capital: &str) -> (res: Option<NameError>)
    ensures
        res == name_fault(name@, capital@),
{
    let t = chars_of(name);
    if t.len() == 0 {
        return Some(NameError::Length);
    }
    let mut sum: u64 = 0;
    let mut i: usize = 0;
    let mut clean = true;
    assert(t@.take(0) =~= Seq::<char>::empty());
    while i < t.len()
        invariant
            i <= t.len(),
            t@ == name@,
            sum <= 2 * i,
            sum == units(t@.take(i as int)),
            clean <==> forall|k: int| 0 <= k < i ==> !is_forbidden(#[trigger] t@[k]),
        decreases t.len() - i,
    {
        proof {
            assert(t@.take(i + 1).drop_last() =~= t@.take(i as int));
            assert(t@.take(i + 1).last() == t@[i as int]);
            longer_texts_have_more_units(t@, i + 1);
        }
        if sum > 255 {
            proof {
                longer_texts_have_more_units(t@, i as int);
            }
            return Some(NameError::Length);
        }
        let c: char = t[i];
        sum = sum + if is_wide(c) {
            2
        } else {
            1
        };
        if forbidden(c) {
            clean = false;
        }
        i += 1;
    }
    assert(t@.take(t@.len() as int) =~= t@);
    if sum > 255 {
        return Some(NameError::Length);
    }
    let last: char = t[t.len() - 1];
    if !clean || last == ' ' || last == '.' || same(name, ".") || same(name, "..") {
        return Some(NameError::Characters);
    }
    if reserved(capital) {
        return Some(NameError::Reserved);
    }
    None
}

proof fn longer_texts_have_more_units(t: Seq<char>, n: int)
    requires
        0 <= n <= t.len(),
    ensures
        units(t.take(n)) <= units(t),
    decreases t.len() - n,
{
    if n < t.len() {
        assert(t.take(n + 1).drop_last() =~= t.take(n));
        longer_texts_have_more_units(t, n + 1);
    } else {
        assert(t.take(n) =~= t);
    }
}

/// What is wrong with a name for a recording, if anything is.
pub fn check_name(name: &str) -> (res: Option<NameError>)
    ensures
        res == name_fault(name@, uppercase(stem(name@))),
        is_ascii_chars(stem(name@)) ==> res == name_fault(name@, capitals(stem(name@))),
{
    let stem = stem_of(name);
    let capital = to_uppercase(&stem);
    fault(name, &capital)
}

/// A recording that is renamed stays in its folder: a name that is not refused has no
/// separator and no drive in it, and means neither its place nor the one above.
pub proof fn renamed_recordings_stay(name: Seq<char>, capital: Seq<char>)
    requires
        name_fault(name, capital) is None,
    ensures
        name.len() > 0,
        name != "."@,
        name != ".."@,
        !name.contains('/'),
        !name.contains('\\'),
        !name.contains(':'),
{
    assert forall|i: int| 0 <= i < name.len() implies name[i] != '/' && name[i] != '\\' && name[i]
        != ':' by {
        assert(!is_forbidden(name[i]));
    }
}

/// A state in which nothing is written any more.
pub open spec fn is_settled(status: Seq<char>) -> bool {
    status == "stopped"@ || status == "complete"@ || status == "failed"@ || status == "cancelled"@
}

/// Whether a recording in this state can be renamed: it is not being written.
pub fn can_rename(status: &str) -> (res: bool)
    ensures
        res == is_settled(status@),
{
    same(status, "stopped") || same(status, "complete") || same(status, "failed") || same(
        status,
        "cancelled",
    )
}

/// How many recordings are listed.
pub const LISTED: usize = 10_000;

/// Places in a list in the order in which they are shown: names from the last to the
/// first, and what has one name in the order of the list.
pub open spec fn shown_before(names: Seq<Seq<char>>, i: int, j: int) -> bool {
    text::before(names[j], names[i]) || (names[i] == names[j] && i < j)
}

/// The order in which a list of names is shown.
pub fn order(names: &Vec<String>) -> (res: Vec<usize>)
    ensures
        res.len() == names.len(),
        forall|i: int| 0 <= i < res.len() ==> (#[trigger] res@[i]) < names.len(),
        forall|i: int, j: int|
            0 <= i < j < res.len() ==> shown_before(
                contents(names@),
                #[trigger] res@[i] as int,
                #[trigger] res@[j] as int,
            ),
{
    let ghost all = contents(names@);
    let mut res: Vec<usize> = Vec::new();
    let mut n: usize = 0;
    while n < names.len()
        invariant
            n <= names.len(),
            all == contents(names@),
            res.len() == n,
            forall|i: int| 0 <= i < res.len() ==> (#[trigger] res@[i]) < n,
            forall|i: int, j: int|
                0 <= i < j < res.len() ==> shown_before(
                    all,
                    #[trigger] res@[i] as int,
                    #[trigger] res@[j] as int,
                ),
        decreases names.len() - n,
    {
        let ghost before = res@;
        let mut k: usize = res.len();
        while k > 0 && relate(&names[res[k - 1]], &names[n]) == Relation::Before
            invariant
                k <= res.len(),
                n < names.len(),
                res@ == before,
                all == contents(names@),
                res.len() == n,
                forall|i: int| 0 <= i < res.len() ==> (#[trigger] res@[i]) < n,
                forall|i: int|
                    k <= i < res.len() ==> text::before(all[#[trigger] res@[i] as int], all[n as int]),
            decreases k,
        {
            k -= 1;
            assert(text::before(all[res@[k as int] as int], all[n as int]));
        }
        proof {
            assert forall|i: int| 0 <= i < k implies shown_before(
                all,
                #[trigger] before[i] as int,
                n as int,
            ) by {
                let last = before[k - 1] as int;
                assert(!text::before(all[last], all[n as int]));
                text::one_comes_first(all[last], all[n as int]);
                if i < k - 1 {
                    assert(shown_before(all, before[i] as int, before[k - 1] as int));
                    if text::before(all[last], all[before[i] as int]) && text::before(
                        all[n as int],
                        all[last],
                    ) {
                        text::before_is_transitive(
                            all[n as int],
                            all[last],
                            all[before[i] as int],
                        );
                    }
                }
            }
        }
        res.insert(k, n);
        proof {
            let after = res@;
            assert forall|i: int, j: int| 0 <= i < j < after.len() implies shown_before(
                all,
                #[trigger] after[i] as int,
                #[trigger] after[j] as int,
            ) by {
                let p = if i < k {
                    i
                } else {
                    i - 1
                };
                let q = if j < k {
                    j
                } else {
                    j - 1
                };
                if i != k {
                    assert(after[i] == before[p]);
                }
                if j != k {
                    assert(after[j] == before[q]);
                }
                if i != k && j != k {
                    assert(shown_before(all, before[p] as int, before[q] as int));
                } else if i == k {
                    assert(text::before(all[before[q] as int], all[n as int]));
                } else {
                    assert(shown_before(all, before[p] as int, n as int));
                }
            }
            assert forall|i: int| 0 <= i < after.len() implies (#[trigger] after[i]) < n + 1 by {
                if i < k {
                    assert(after[i] == before[i]);
                } else if i > k {
                    assert(after[i] == before[i - 1]);
                }
            }
        }
        n += 1;
    }
    res
}

/// A path is inside another exactly where it has all of that one's components, each in its
/// place.
pub proof fn paths_inside_share_their_beginning(base: Seq<Seq<char>>, path: Seq<Seq<char>>)
    ensures
        inside(base, path) <==> base.len() <= path.len() && forall|i: int|
            0 <= i < base.len() ==> #[trigger] path[i] == base[i],
        inside(base, base),
        inside(base, base + path),
{
    if base.len() <= path.len() {
        let part = path.take(base.len() as int);
        if inside(base, path) {
            assert forall|i: int| 0 <= i < base.len() implies #[trigger] path[i] == base[i] by {
                assert(part[i] == path[i]);
            }
        }
        if forall|i: int| 0 <= i < base.len() ==> #[trigger] path[i] == base[i] {
            assert(part =~= base);
        }
    }
    assert(base.take(base.len() as int) =~= base);
    assert((base + path).take(base.len() as int) =~= base);
}

/// A component that is a name leads down by that name; the place itself leads nowhere.
pub proof fn names_lead_down(at: Seq<Seq<char>>, name: String, part: Part)
    ensures
        followed(at, Part::Normal(name)).len() == at.len() + 1,
        followed(at, Part::Normal(name)).last() == name@,
        inside(at, followed(at, Part::Normal(name))),
        followed(at, Part::Current) == at,
{
    let next = followed(at, Part::Normal(name));
    assert(next.take(at.len() as int) =~= at);
}

/// What is played: the original where it is asked for, and nothing in its stead; else what
/// was processed last, which comes before what was heard. What was heard is played only
/// where nothing points to processed audio that is there.
pub proof fn processed_audio_comes_first(raw: bool, latest: Pointer, live: bool)
    ensures
        played(true, raw, latest, live) is Ok <==> raw,
        played(true, raw, latest, live) matches Ok(what) ==> what is Original,
        played(true, false, latest, live) == Err::<AudioSource, _>(AudioError::NoOriginal),
        played(false, raw, Pointer::Present, live) == Ok::<_, AudioError>(AudioSource::Latest),
        played(false, raw, Pointer::Absent, true) == Ok::<_, AudioError>(AudioSource::Live),
        played(false, raw, Pointer::Missing, true) == Ok::<_, AudioError>(AudioSource::Live),
        played(false, raw, Pointer::Absent, false) == Err::<AudioSource, _>(AudioError::NoAudio),
        played(false, raw, Pointer::Missing, false) == Err::<AudioSource, _>(AudioError::NoAudio),
        played(false, raw, Pointer::Invalid, live) == Err::<AudioSource, _>(AudioError::Pointer),
        played(false, raw, latest, live) matches Ok(what) ==> !(what is Original),
{
}

/// A pointer is good exactly where it names a path that leads down, no link on the way leads
/// out, and there is a file.
pub proof fn pointers_are_what_they_name(parts: Seq<Part>, link: bool, is_file: bool)
    ensures
        pointed(None, link, is_file) is Invalid,
        pointed(Some(parts), link, is_file) is Present <==> parts.len() > 0 && !link && is_file
            && forall|i: int|
            0 <= i < parts.len() ==> (#[trigger] parts[i] is Normal || parts[i] is Current),
        pointed(Some(parts), link, is_file) is Missing ==> !is_file && !link,
        parts.len() == 0 ==> pointed(Some(parts), link, is_file) is Escaping,
{
}

/// Texts one behind the other have the units of both; a character has two where it needs
/// more than sixteen bits.
pub proof fn units_add_up(a: Seq<char>, b: Seq<char>, c: char)
    ensures
        units(a + b) == units(a) + units(b),
        units(seq![c]) == (if c as int >= 0x1_0000 {
            2int
        } else {
            1int
        }),
        a.len() <= units(a) <= 2 * a.len(),
    decreases b.len(), a.len(),
{
    assert(seq![c].drop_last() =~= Seq::<char>::empty());
    assert(seq![c].last() == c);
    assert(units(Seq::<char>::empty()) == 0);
    if b.len() == 0 {
        assert(a + b =~= a);
        if a.len() > 0 {
            units_add_up(a.drop_last(), b, c);
        }
    } else {
        assert((a + b).drop_last() =~= a + b.drop_last());
        units_add_up(a, b.drop_last(), c);
    }
}

/// What names cannot have: control characters, and those that mean something in a path.
pub proof fn names_have_no_control_characters(c: char)
    ensures
        (c as int) < 32 || 127 <= c as int <= 159 ==> is_forbidden(c),
        is_forbidden('<') && is_forbidden('>') && is_forbidden(':') && is_forbidden('"')
            && is_forbidden('/') && is_forbidden('\\') && is_forbidden('|') && is_forbidden('?')
            && is_forbidden('*'),
        ('a' <= c <= 'z') || ('A' <= c <= 'Z') || ('0' <= c <= '9') || c as int > 159 || c == '.'
            || c == ' ' || c == '-' || c == '_' ==> !is_forbidden(c),
{
}

/// A name is taken exactly where it has 1 to 255 units, none of its characters is forbidden,
/// it does not end in a space or a dot, and does not mean a device; the first of these that
/// fails is the reason.
pub proof fn names_are_refused_for_one_reason(name: Seq<char>, capital: Seq<char>)
    ensures
        name_fault(name, capital) is None <==> {
            &&& name.len() > 0 && units(name) <= 255
            &&& name.last() != ' ' && name.last() != '.'
            &&& forall|i: int| 0 <= i < name.len() ==> !is_forbidden(#[trigger] name[i])
            &&& !means_device(capital)
        },
        name.len() == 0 ==> name_fault(name, capital) == Some(NameError::Length),
        units(name) > 255 ==> name_fault(name, capital) == Some(NameError::Length),
        name_fault(name, capital) == Some(NameError::Reserved) ==> means_device(capital),
        name_fault(name, capital) == Some(NameError::Characters) ==> !is_clean(name),
{
    reveal_strlit(".");
    reveal_strlit("..");
    assert("."@.len() == 1 && ".."@.len() == 2);
    assert("."@.last() == '.' && ".."@.last() == '.');
}

/// Which stems mean a device.
pub proof fn devices_have_their_names(d: char)
    ensures
        means_device("CON"@) && means_device("PRN"@) && means_device("AUX"@) && means_device(
            "NUL"@,
        ) && means_device("CONIN$"@) && means_device("CONOUT$"@),
        '1' <= d <= '9' || d == '¹' || d == '²' || d == '³' ==> means_device(
            seq!['C', 'O', 'M', d],
        ) && means_device(seq!['L', 'P', 'T', d]),
        means_device(seq!['C', 'O', 'M', d]) ==> ('1' <= d <= '9' || d == '¹' || d == '²' || d
            == '³'),
        !means_device(seq!['C', 'O', 'M', '0']),
{
    reveal_strlit("COM");
    reveal_strlit("LPT");
    reveal_strlit("CON");
    reveal_strlit("PRN");
    reveal_strlit("AUX");
    reveal_strlit("NUL");
    reveal_strlit("CONIN$");
    reveal_strlit("CONOUT$");
    let com = seq!['C', 'O', 'M', d];
    let lpt = seq!['L', 'P', 'T', d];
    assert("COM"@.len() == 3 && "LPT"@.len() == 3 && "CON"@.len() == 3 && "PRN"@.len() == 3
        && "AUX"@.len() == 3 && "NUL"@.len() == 3 && "CONIN$"@.len() == 6 && "CONOUT$"@.len() == 7);
    assert(com.take(3) =~= "COM"@);
    assert(lpt.take(3) =~= "LPT"@);
    assert(com.last() == d && lpt.last() == d);
    let zero = seq!['C', 'O', 'M', '0'];
    assert(zero.last() == '0' && zero.len() == 4);
    assert(com.len() == 4);
}

/// The stem of a name is what stands before its first dot, without the white space that ends
/// it: it begins the name and holds no dot, and between it and the dot is only white space.
pub proof fn stems_end_before_the_first_dot(name: Seq<char>)
    ensures
        ({
            let s = stem(name);
            &&& s.len() <= name.len()
            &&& name.take(s.len() as int) == s
            &&& !s.contains('.')
            &&& s.len() > 0 ==> !is_space(s.last())
            &&& exists|n: int|
                {
                    &&& s.len() <= n <= name.len()
                    &&& (n == name.len() || #[trigger] name[n] == '.')
                    &&& forall|i: int| s.len() <= i < n ==> is_space(#[trigger] name[i])
                }
        }),
{
    dots_come_first(name, 0);
    let n = crate::query::place_of(name, '.', 0);
    let front = name.take(n);
    spaces_are_trimmed(front);
    let s = stem(name);
    assert(name.take(s.len() as int) =~= s) by {
        assert(front.take(s.len() as int) == s);
        assert(name.take(s.len() as int) =~= front.take(s.len() as int));
    }
    assert forall|i: int| 0 <= i < s.len() implies s[i] != '.' by {
        assert(s[i] == front[i]);
    }
    assert forall|i: int| s.len() <= i < n implies is_space(#[trigger] name[i]) by {
        assert(front[i] == name[i]);
    }
    if n < name.len() {
        assert(name[n] == '.');
    } else {
        assert(n == name.len());
        let beyond = name[n];
    }
}

proof fn dots_come_first(t: Seq<char>, at: int)
    requires
        0 <= at <= t.len(),
    ensures
        at <= crate::query::place_of(t, '.', at) <= t.len(),
        forall|k: int| at <= k < crate::query::place_of(t, '.', at) ==> t[k] != '.',
        crate::query::place_of(t, '.', at) < t.len() ==> t[crate::query::place_of(t, '.', at)]
            == '.',
    decreases t.len() - at,
{
    if at < t.len() && t[at] != '.' {
        dots_come_first(t, at + 1);
    }
}

proof fn spaces_are_trimmed(t: Seq<char>)
    ensures
        trimmed(t).len() <= t.len(),
        t.take(trimmed(t).len() as int) == trimmed(t),
        trimmed(t).len() > 0 ==> !is_space(trimmed(t).last()),
        forall|i: int| trimmed(t).len() <= i < t.len() ==> is_space(#[trigger] t[i]),
    decreases t.len(),
{
    if t.len() > 0 && is_space(t.last()) {
        let rest = t.drop_last();
        spaces_are_trimmed(rest);
        assert(t.take(trimmed(t).len() as int) =~= rest.take(trimmed(t).len() as int));
        assert forall|i: int| trimmed(t).len() <= i < t.len() implies is_space(#[trigger] t[i]) by {
            if i < rest.len() {
                assert(rest[i] == t[i]);
            }
        }
    } else {
        assert(t.take(t.len() as int) =~= t);
    }
}

/// Capitals differ from their letters by 32, and only the letters from a to z have them.
pub proof fn letters_have_capitals(t: Seq<char>, i: int)
    requires
        0 <= i < t.len(),
    ensures
        capitals(t).len() == t.len(),
        'a' <= t[i] <= 'z' ==> capitals(t)[i] as u32 + 32 == t[i] as u32,
        !('a' <= t[i] <= 'z') ==> capitals(t)[i] == t[i],
{
}

/// A recording is renamed only when it has come to an end.
pub proof fn settled_recordings_are_renamed(status: Seq<char>)
    ensures
        is_settled("stopped"@) && is_settled("complete"@) && is_settled("failed"@) && is_settled(
            "cancelled"@,
        ),
        !is_settled("recording"@),
        !is_settled("processing"@),
        !is_settled(Seq::empty()),
{
    reveal_strlit("stopped");
    reveal_strlit("complete");
    reveal_strlit("failed");
    reveal_strlit("cancelled");
    reveal_strlit("recording");
    reveal_strlit("processing");
    assert("stopped"@.len() == 7 && "complete"@.len() == 8 && "failed"@.len() == 6
        && "cancelled"@.len() == 9 && "recording"@.len() == 9 && "processing"@.len() == 10);
    assert("recording"@[0] == 'r' && "cancelled"@[0] == 'c');
}

/// Later names are shown first; of two places one is always shown before the other, and
/// never both.
pub proof fn later_names_are_shown_first(names: Seq<Seq<char>>, i: int, j: int)
    requires
        0 <= i < names.len(),
        0 <= j < names.len(),
        i != j,
    ensures
        shown_before(names, i, j) != shown_before(names, j, i),
        text::before(names[i], names[j]) ==> shown_before(names, j, i),
        names[i] == names[j] ==> (shown_before(names, i, j) <==> i < j),
{
    text::one_comes_first(names[i], names[j]);
}

/// White space is what ends lines and pages, tabs, and the spaces of all widths.
pub proof fn spaces_are_known(c: char)
    ensures
        is_space(' ') && is_space('\t') && is_space('\n') && is_space('\r'),
        c as int == 0x0b || c as int == 0x0c || c as int == 0x85 || c as int == 0xa0 || c as int
            == 0x1680 || c as int == 0x2028 || c as int == 0x2029 || c as int == 0x202f || c as int
            == 0x205f || c as int == 0x3000 ==> is_space(c),
        0x2000 <= c as int <= 0x200a ==> is_space(c),
        is_space(c) ==> c as int <= 0x20 || c as int == 0x85 || c as int == 0xa0 || c as int
            >= 0x1680,
        is_space(c) && c as int >= 0x1681 ==> (0x2000 <= c as int <= 0x200a) || (0x2028 <= c as int
            <= 0x2029) || c as int == 0x202f || c as int == 0x205f || c as int == 0x3000,
        is_space(c) && c as int <= 0x20 ==> (9 <= c as int <= 13) || c as int == 0x20,
{
}

} // verus!
