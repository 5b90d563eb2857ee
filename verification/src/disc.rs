//! Analysis of a whole disc from what was read of it.
//!
//! The caller lists the playlist and clip directories, picks the files with
//! [`playlist_names`] and [`clip_names`], reads them, and hands what came of it
//! to [`analyze`].
use std::collections::HashSet;

use vstd::prelude::*;
use vstd::string::*;

use crate::analysis::laws::{law_kept_playlists_differ, law_preferred_duplicate_kept};
use crate::analysis::{
    analyze_playlist, analyzed, analyzed_of, apply_composite_grouping, best_duplicate,
    dedup_playlists, distinct, find_unreferenced_clips, identify_ig_clips, identify_main_title,
    ig_clips_in, ig_clips_of, is_looping, loops, main_title_of, members_of, preferred, signatures,
    ticks, unreferenced_in, unreferenced_of, with_members, within_limits, AnalyzedModel,
    AnalyzedPlaylist, ClipWarning, IgClip, PartiallyUsedClip, PlaylistWarning, UnreferencedClip,
};
use crate::clpi::{self, clip_models, file_clip, ClipInfo, ClipModel};
use crate::keydb::{ascii_lower, chars_of, lower};
use crate::mpls::{playlists_of, Playlist, PlaylistModel};
use crate::reader::ReaderError;
use crate::seqs::{
    law_sorting_keeps_elements, law_sorting_orders_keys, lemma_sorted_mapped, lemma_sorted_members,
    mapped, stable_sort, stable_sorted,
};
use crate::text::{code_point, concat3, texts};

pub mod laws;

verus! {

/// Why a disc could not be analysed.
#[derive(Debug, Clone)]
pub enum BdmvError {
    /// The playlist directory could not be read.
    PlaylistDir(ReaderError),
    /// No playlist is left that could be offered.
    NoPlaylists,
}

impl BdmvError {
    /// The message of the error.
    pub open spec fn text(self) -> Seq<char> {
        match self {
            BdmvError::PlaylistDir(e) => "failed to read playlist directory: "@ + e.text(),
            BdmvError::NoPlaylists => "no valid playlists found after filtering"@,
        }
    }

    /// Describes the error.
    pub fn message(&self) -> (text: String)
        ensures
            text@ == self.text(),
    {
        match self {
            BdmvError::PlaylistDir(e) => {
                let mut text: String = String::from_str("failed to read playlist directory: ");
                text.append(e.message().as_str());
                text
            },
            BdmvError::NoPlaylists => String::from_str("no valid playlists found after filtering"),
        }
    }
}

/// The analysis of a disc.
#[derive(Debug)]
pub struct BdmvAnalysis {
    /// Playlists without menus and duplicates, by number.
    pub playlists: Vec<AnalyzedPlaylist>,
    /// Number of the main title.
    pub main_title: Option<u32>,
    /// Clips with interactive graphics.
    pub ig_clips: Vec<IgClip>,
    /// Clips that no playlist refers to.
    pub unreferenced_clips: Vec<UnreferencedClip>,
    /// Clips of which playlists use only a part.
    pub partially_used_clips: Vec<PartiallyUsedClip>,
    /// Playlists that could not be read or parsed.
    pub warnings: Vec<PlaylistWarning>,
    /// Clips that could not be read or parsed.
    pub clip_warnings: Vec<ClipWarning>,
    /// Playlists that the disc's title table registers; empty if unknown.
    pub title_playlists: HashSet<u32>,
}

/// What reading and parsing a playlist file came to.
#[derive(Debug, Clone)]
pub enum PlaylistOutcome {
    /// The playlist.
    Parsed(Playlist),
    /// The file could not be read; why.
    Unreadable(ReaderError),
    /// The file could not be parsed; why.
    Malformed(String),
}

/// A playlist file and what it came to.
#[derive(Debug, Clone)]
pub struct PlaylistFile {
    /// Name of the file.
    pub name: String,
    /// What reading and parsing it came to.
    pub outcome: PlaylistOutcome,
}

/// A clip information file and what reading it gave.
#[derive(Debug)]
pub struct ClipFile {
    /// Name of the file.
    pub name: String,
    /// Its bytes.
    pub read: Result<Vec<u8>, ReaderError>,
}

// ---------------------------------------------------------------------------
// Directories
// ---------------------------------------------------------------------------

/// Tells the playlist directory: `PLAYLIST` if that can be read, else the one
/// in `BDMV`.
pub fn playlist_dir(readable: bool) -> (dir: &'static str)
    ensures
        dir@ == if readable {
            "PLAYLIST"@
        } else {
            "BDMV/PLAYLIST"@
        },
{
    if readable {
        "PLAYLIST"
    } else {
        "BDMV/PLAYLIST"
    }
}

/// Tells the directory of the clip information files: `CLIPINF` if that can be
/// read, else the one in `BDMV` if that can be, else none.
pub fn clip_dir(readable: bool, readable_in_bdmv: bool) -> (dir: Option<&'static str>)
    ensures
        readable ==> (dir matches Some(d) && d@ == "CLIPINF"@),
        !readable && readable_in_bdmv ==> (dir matches Some(d) && d@ == "BDMV/CLIPINF"@),
        !readable && !readable_in_bdmv ==> dir is None,
{
    if readable {
        Some("CLIPINF")
    } else if readable_in_bdmv {
        Some("BDMV/CLIPINF")
    } else {
        None
    }
}

// ---------------------------------------------------------------------------
// File names
// ---------------------------------------------------------------------------

/// Whether a name ends with a suffix in lower case, up to the case of ASCII
/// letters.
pub open spec fn ends_with(name: Seq<char>, suffix: Seq<char>) -> bool {
    name.len() >= suffix.len() && forall|i: int|
        0 <= i < suffix.len() ==> ascii_lower(#[trigger] name[name.len() - suffix.len() + i])
            == ascii_lower(suffix[i])
}

/// Whether a text is before another one in the order of its characters.
pub open spec fn before(a: Seq<char>, b: Seq<char>) -> bool
    decreases a.len(),
{
    if b.len() == 0 {
        false
    } else if a.len() == 0 {
        true
    } else if a[0] != b[0] {
        a[0] < b[0]
    } else {
        before(a.skip(1), b.skip(1))
    }
}

/// A name put into sorted names, before the first that is after it.
pub open spec fn placed(names: Seq<Seq<char>>, name: Seq<char>, i: int) -> Seq<Seq<char>>
    decreases names.len() - i,
{
    if i >= names.len() || before(name, names[i]) {
        names.insert(i, name)
    } else {
        placed(names, name, i + 1)
    }
}

/// Those of the names that end with a suffix, in order.
pub open spec fn selected(names: Seq<Seq<char>>, suffix: Seq<char>) -> Seq<Seq<char>>
    decreases names.len(),
{
    if names.len() == 0 {
        seq![]
    } else {
        let rest = selected(names.drop_last(), suffix);
        if ends_with(names.last(), suffix) {
            placed(rest, names.last(), 0)
        } else {
            rest
        }
    }
}

/// `name` without `suffix`, if it ends with exactly that.
pub open spec fn stripped(name: Seq<char>, suffix: Seq<char>) -> Option<Seq<char>> {
    if name.len() >= suffix.len() && name.skip(name.len() - suffix.len()) == suffix {
        Some(name.take(name.len() - suffix.len()))
    } else {
        None
    }
}

/// The number that decimal digits write, after `value`; `None` where one is no
/// digit or the number does not fit 32 bits.
pub open spec fn digits_value(text: Seq<char>, value: nat) -> Option<u32>
    decreases text.len(),
{
    if value > u32::MAX {
        None
    } else if text.len() == 0 {
        Some(value as u32)
    } else if '0' <= text[0] <= '9' {
        digits_value(text.skip(1), value * 10 + (text[0] as u32 - 48) as nat)
    } else {
        None
    }
}

/// The number that a text writes: digits, which may have a plus sign.
pub open spec fn number_value(text: Seq<char>) -> Option<u32> {
    let digits = if text.len() > 0 && text[0] == '+' {
        text.skip(1)
    } else {
        text
    };
    if digits.len() == 0 {
        None
    } else {
        digits_value(digits, 0)
    }
}

/// A file name without its extension in lower or upper case.
pub open spec fn base_name(name: Seq<char>, low: Seq<char>, high: Seq<char>) -> Option<Seq<char>> {
    match stripped(name, low) {
        Some(base) => Some(base),
        None => stripped(name, high),
    }
}

/// The number of a playlist file, 0 if its name holds none.
pub open spec fn playlist_number_of(name: Seq<char>) -> u32 {
    match base_name(name, ".mpls"@, ".MPLS"@) {
        Some(base) => match number_value(base) {
            Some(n) => n,
            None => 0,
        },
        None => 0,
    }
}

/// The clip of a clip information file.
pub open spec fn clip_id_of(name: Seq<char>) -> Seq<char> {
    match base_name(name, ".clpi"@, ".CLPI"@) {
        Some(base) => base,
        None => name,
    }
}

fn name_ends_with(name: &str, suffix: &str) -> (yes: bool)
    ensures
        yes == ends_with(name@, suffix@),
{
    let n: Vec<char> = chars_of(name);
    let s: Vec<char> = chars_of(suffix);
    if n.len() < s.len() {
        return false;
    }
    let start: usize = n.len() - s.len();
    let mut i: usize = 0;
    while i < s.len()
        invariant
            i <= s.len(),
            n@ == name@,
            s@ == suffix@,
            start + s.len() == n.len(),
            forall|j: int|
                0 <= j < i ==> ascii_lower(#[trigger] n@[n@.len() - s@.len() + j]) == ascii_lower(
                    s@[j],
                ),
        decreases s.len() - i,
    {
        if lower(n[start + i]) != lower(s[i]) {
            assert(ascii_lower(n@[n@.len() - s@.len() + i]) != ascii_lower(s@[i as int]));
            return false;
        }
        i = i + 1;
    }
    true
}

fn is_before(a: &str, b: &str) -> (yes: bool)
    ensures
        yes == before(a@, b@),
{
    let x: Vec<char> = chars_of(a);
    let y: Vec<char> = chars_of(b);
    let mut i: usize = 0;
    proof {
        assert(x@.skip(0) =~= x@);
        assert(y@.skip(0) =~= y@);
    }
    while i < x.len() && i < y.len()
        invariant
            i <= x.len(),
            i <= y.len(),
            x@ == a@,
            y@ == b@,
            before(a@, b@) == before(x@.skip(i as int), y@.skip(i as int)),
        decreases x.len() - i,
    {
        let c: char = x[i];
        let e: char = y[i];
        if c != e {
            return code_point(c) < code_point(e);
        }
        proof {
            assert(x@.skip(i as int).skip(1) =~= x@.skip(i + 1));
            assert(y@.skip(i as int).skip(1) =~= y@.skip(i + 1));
        }
        i = i + 1;
    }
    i < y.len()
}

/// Picks the names that end with a suffix, and sorts them.
fn select_names(names: &Vec<String>, suffix: &str) -> (picked: Vec<String>)
    ensures
        texts(picked@) == selected(texts(names@), suffix@),
{
    let ghost all = texts(names@);
    let mut picked: Vec<String> = Vec::new();
    let mut i: usize = 0;
    proof {
        assert(texts(picked@) =~= selected(all.take(0), suffix@));
    }
    while i < names.len()
        invariant
            i <= names.len(),
            all == texts(names@),
            texts(picked@) == selected(all.take(i as int), suffix@),
        decreases names.len() - i,
    {
        proof {
            assert(all.take(i + 1).drop_last() =~= all.take(i as int));
            assert(all.take(i + 1).last() == names@[i as int]@);
        }
        if name_ends_with(names[i].as_str(), suffix) {
            let name: String = names[i].clone();
            let ghost list = texts(picked@);
            let ghost goal = placed(list, name@, 0);
            let mut k: usize = 0;
            while k < picked.len() && !is_before(name.as_str(), picked[k].as_str())
                invariant
                    k <= picked.len(),
                    list == texts(picked@),
                    placed(list, name@, k as int) == goal,
                decreases picked.len() - k,
            {
                assert(list[k as int] == picked@[k as int]@);
                k = k + 1;
            }
            proof {
                if k < picked.len() {
                    assert(list[k as int] == picked@[k as int]@);
                }
                assert(list.insert(k as int, name@) == goal);
            }
            picked.insert(k, name);
            proof {
                assert(texts(picked@) =~= list.insert(k as int, name@));
            }
        }
        i = i + 1;
    }
    proof {
        assert(all.take(i as int) =~= all);
    }
    picked
}

/// Picks the playlist files of a directory, in order of their names.
pub fn playlist_names(names: &Vec<String>) -> (picked: Vec<String>)
    ensures
        texts(picked@) == selected(texts(names@), ".mpls"@),
{
    select_names(names, ".mpls")
}

/// Picks the clip information files of a directory, in order of their names.
pub fn clip_names(names: &Vec<String>) -> (picked: Vec<String>)
    ensures
        texts(picked@) == selected(texts(names@), ".clpi"@),
{
    select_names(names, ".clpi")
}

fn strip_suffix(name: &Vec<char>, suffix: &str) -> (base: Option<usize>)
    ensures
        match stripped(name@, suffix@) {
            Some(s) => base matches Some(n) && n <= name@.len() && s == name@.take(n as int),
            None => base is None,
        },
{
    let s: Vec<char> = chars_of(suffix);
    if name.len() < s.len() {
        return None;
    }
    let start: usize = name.len() - s.len();
    let ghost tail = name@.skip(start as int);
    let mut i: usize = 0;
    while i < s.len()
        invariant
            i <= s.len(),
            s@ == suffix@,
            start + s.len() == name.len(),
            tail == name@.skip(start as int),
            forall|j: int| 0 <= j < i ==> #[trigger] tail[j] == s@[j],
        decreases s.len() - i,
    {
        assert(tail[i as int] == name@[start + i]);
        if name[start + i] != s[i] {
            assert(tail != s@);
            return None;
        }
        i = i + 1;
    }
    proof {
        assert(tail =~= s@);
    }
    Some(start)
}

/// The length of a file name without its extension.
fn base_length(name: &Vec<char>, low: &str, high: &str) -> (base: Option<usize>)
    ensures
        match base_name(name@, low@, high@) {
            Some(s) => base matches Some(n) && n <= name@.len() && s == name@.take(n as int),
            None => base is None,
        },
{
    match strip_suffix(name, low) {
        Some(n) => Some(n),
        None => strip_suffix(name, high),
    }
}

/// Parses the number that the first `end` characters write.
fn parse_number(text: &Vec<char>, end: usize) -> (number: Option<u32>)
    requires
        end <= text@.len(),
    ensures
        number == number_value(text@.take(end as int)),
{
    let ghost whole = text@.take(end as int);
    let start: usize = if end > 0 && text[0] == '+' {
        1
    } else {
        0
    };
    proof {
        if start == 0 {
            assert(whole.skip(0) =~= whole);
        }
    }
    if start == end {
        return None;
    }
    let mut value: u64 = 0;
    let mut i: usize = start;
    while i < end
        invariant
            start <= i <= end <= text@.len(),
            start < end,
            whole == text@.take(end as int),
            value <= u32::MAX,
            number_value(whole) == digits_value(whole.skip(i as int), value as nat),
        decreases end - i,
    {
        let c: char = text[i];
        let n: u32 = code_point(c);
        assert(whole.skip(i as int)[0] == text@[i as int]);
        if n < 48 || n > 57 {
            return None;
        }
        proof {
            assert(whole.skip(i as int).skip(1) =~= whole.skip(i + 1));
        }
        value = value * 10 + (n - 48) as u64;
        assert(number_value(whole) == digits_value(whole.skip(i + 1), value as nat));
        if value > u32::MAX as u64 {
            return None;
        }
        i = i + 1;
    }
    Some(value as u32)
}

/// Tells the number of a playlist file from its name.
pub fn playlist_number(name: &str) -> (number: u32)
    ensures
        number == playlist_number_of(name@),
{
    let chars: Vec<char> = chars_of(name);
    match base_length(&chars, ".mpls", ".MPLS") {
        Some(end) => match parse_number(&chars, end) {
            Some(n) => n,
            None => 0,
        },
        None => 0,
    }
}

/// Tells the clip of a clip information file from its name.
pub fn clip_id_from_name(name: &str) -> (clip_id: String)
    ensures
        clip_id@ == clip_id_of(name@),
{
    let chars: Vec<char> = chars_of(name);
    match base_length(&chars, ".clpi", ".CLPI") {
        Some(end) => {
            proof {
                assert(chars@.take(end as int) =~= name@.subrange(0, end as int));
            }
            String::from_str(name.substring_char(0, end))
        },
        None => String::from_str(name),
    }
}

// ---------------------------------------------------------------------------
// Outcomes
// ---------------------------------------------------------------------------

/// The message about a file of a directory.
pub open spec fn failure_text(
    what: Seq<char>,
    dir: Seq<char>,
    name: Seq<char>,
    error: Seq<char>,
) -> Seq<char> {
    what + dir + "/"@ + name + ": "@ + error
}

/// What the first `n` playlist files hold that could be parsed.
pub open spec fn parsed_upto(files: Seq<PlaylistFile>, n: int) -> Seq<Playlist>
    decreases n,
{
    if n <= 0 {
        seq![]
    } else {
        let done = parsed_upto(files, n - 1);
        match files[n - 1].outcome {
            PlaylistOutcome::Parsed(p) => done.push(p),
            _ => done,
        }
    }
}

/// The warnings about the first `n` playlist files: the number of the file and
/// the message.
pub open spec fn playlist_warnings_upto(dir: Seq<char>, files: Seq<PlaylistFile>, n: int) -> Seq<
    (u32, Seq<char>),
>
    decreases n,
{
    if n <= 0 {
        seq![]
    } else {
        let done = playlist_warnings_upto(dir, files, n - 1);
        let name = files[n - 1].name@;
        match files[n - 1].outcome {
            PlaylistOutcome::Parsed(_) => done,
            PlaylistOutcome::Unreadable(e) => done.push(
                (playlist_number_of(name), failure_text("failed to read "@, dir, name, e.text())),
            ),
            PlaylistOutcome::Malformed(e) => done.push(
                (playlist_number_of(name), failure_text("failed to parse "@, dir, name, e@)),
            ),
        }
    }
}

/// The clip of a clip information file, or the message that says why there is
/// none.
pub open spec fn clip_outcome(dir: Seq<char>, file: ClipFile) -> Result<ClipModel, Seq<char>> {
    let name = file.name@;
    match file.read {
        Err(e) => Err(failure_text("failed to read "@, dir, name, e.text())),
        Ok(data) => match file_clip(data@, clip_id_of(name)) {
            Ok(clip) => Ok(clip),
            Err(text) => Err(failure_text("failed to parse "@, dir, name, text)),
        },
    }
}

/// The clips of the first `n` clip information files.
pub open spec fn clips_upto(dir: Seq<char>, files: Seq<ClipFile>, n: int) -> Seq<ClipModel>
    decreases n,
{
    if n <= 0 {
        seq![]
    } else {
        let done = clips_upto(dir, files, n - 1);
        match clip_outcome(dir, files[n - 1]) {
            Ok(clip) => done.push(clip),
            Err(_) => done,
        }
    }
}

/// The warnings about the first `n` clip information files: the clip of the
/// file and the message.
pub open spec fn clip_warnings_upto(dir: Seq<char>, files: Seq<ClipFile>, n: int) -> Seq<
    (Seq<char>, Seq<char>),
>
    decreases n,
{
    if n <= 0 {
        seq![]
    } else {
        let done = clip_warnings_upto(dir, files, n - 1);
        match clip_outcome(dir, files[n - 1]) {
            Ok(_) => done,
            Err(text) => done.push((clip_id_of(files[n - 1].name@), text)),
        }
    }
}

/// Contents of warnings about playlists.
pub open spec fn playlist_warnings_of(list: Seq<PlaylistWarning>) -> Seq<(u32, Seq<char>)> {
    list.map_values(|w: PlaylistWarning| (w.playlist, w.message@))
}

/// Contents of warnings about clips.
pub open spec fn clip_warnings_of(list: Seq<ClipWarning>) -> Seq<(Seq<char>, Seq<char>)> {
    list.map_values(|w: ClipWarning| (w.clip_id@, w.message@))
}

fn failure(what: &str, dir: &str, name: &str, error: &str) -> (text: String)
    ensures
        text@ == failure_text(what@, dir@, name@, error@),
{
    let mut text: String = concat3(what, dir, "/");
    text.append(name);
    text.append(": ");
    text.append(error);
    text
}

/// Sorts the outcomes of playlist files into playlists and warnings.
pub fn read_playlists(dir: &str, files: Vec<PlaylistFile>) -> (result: (
    Vec<Playlist>,
    Vec<PlaylistWarning>,
))
    ensures
        result.0@ == parsed_upto(files@, files@.len() as int),
        playlist_warnings_of(result.1@) == playlist_warnings_upto(
            dir@,
            files@,
            files@.len() as int,
        ),
{
    let ghost all = files@;
    let mut playlists: Vec<Playlist> = Vec::new();
    let mut warnings: Vec<PlaylistWarning> = Vec::new();
    proof {
        assert(playlist_warnings_of(warnings@) =~= seq![]);
    }
    for file in it: files
        invariant
            it.seq() == all,
            playlists@ == parsed_upto(all, it.index()),
            playlist_warnings_of(warnings@) == playlist_warnings_upto(dir@, all, it.index()),
            it.index() == all.len() ==> playlists@ == parsed_upto(all, all.len() as int)
                && playlist_warnings_of(warnings@) == playlist_warnings_upto(
                dir@,
                all,
                all.len() as int,
            ),
    {
        let ghost done = playlist_warnings_of(warnings@);
        let PlaylistFile { name, outcome } = file;
        match outcome {
            PlaylistOutcome::Parsed(p) => {
                playlists.push(p);
            },
            PlaylistOutcome::Unreadable(e) => {
                let message: String = failure(
                    "failed to read ",
                    dir,
                    name.as_str(),
                    e.message().as_str(),
                );
                let playlist: u32 = playlist_number(name.as_str());
                warnings.push(PlaylistWarning { playlist, message });
                proof {
                    assert(playlist_warnings_of(warnings@) =~= done.push((playlist, message@)));
                }
            },
            PlaylistOutcome::Malformed(e) => {
                let message: String = failure("failed to parse ", dir, name.as_str(), e.as_str());
                let playlist: u32 = playlist_number(name.as_str());
                warnings.push(PlaylistWarning { playlist, message });
                proof {
                    assert(playlist_warnings_of(warnings@) =~= done.push((playlist, message@)));
                }
            },
        }
    }
    (playlists, warnings)
}

/// Parses a clip information file, given the result of reading it. Returns the
/// message that says why there is no clip.
pub fn read_clip(dir: &str, file: &ClipFile) -> (result: Result<ClipInfo, String>)
    ensures
        match clip_outcome(dir@, *file) {
            Ok(clip) => result matches Ok(c) && c@ == clip,
            Err(text) => result matches Err(message) && message@ == text,
        },
{
    let name: &str = file.name.as_str();
    match &file.read {
        Ok(data) => match clpi::parse(data, clip_id_from_name(name)) {
            Ok(clip) => Ok(clip),
            Err(e) => Err(failure("failed to parse ", dir, name, e.message().as_str())),
        },
        Err(e) => Err(failure("failed to read ", dir, name, e.message().as_str())),
    }
}

/// Parses clip information files. Those that cannot be read or parsed become
/// warnings.
pub fn read_clips(dir: &str, files: &Vec<ClipFile>) -> (result: (Vec<ClipInfo>, Vec<ClipWarning>))
    ensures
        clip_models(result.0@) == clips_upto(dir@, files@, files@.len() as int),
        clip_warnings_of(result.1@) == clip_warnings_upto(dir@, files@, files@.len() as int),
{
    let mut clips: Vec<ClipInfo> = Vec::new();
    let mut warnings: Vec<ClipWarning> = Vec::new();
    proof {
        assert(clip_models(clips@) =~= seq![]);
        assert(clip_warnings_of(warnings@) =~= seq![]);
    }
    let mut i: usize = 0;
    while i < files.len()
        invariant
            i <= files.len(),
            clip_models(clips@) == clips_upto(dir@, files@, i as int),
            clip_warnings_of(warnings@) == clip_warnings_upto(dir@, files@, i as int),
        decreases files.len() - i,
    {
        let ghost done = clip_models(clips@);
        let ghost warned = clip_warnings_of(warnings@);
        match read_clip(dir, &files[i]) {
            Ok(clip) => {
                clips.push(clip);
                proof {
                    assert(clip_models(clips@) =~= done.push(clip@));
                }
            },
            Err(message) => {
                let clip_id: String = clip_id_from_name(files[i].name.as_str());
                warnings.push(ClipWarning { clip_id, message });
                proof {
                    assert(clip_warnings_of(warnings@) =~= warned.push((clip_id@, message@)));
                }
            },
        }
        i = i + 1;
    }
    (clips, warnings)
}

// ---------------------------------------------------------------------------
// The analysis
// ---------------------------------------------------------------------------

/// Those of the playlists that are no looping menu.
pub open spec fn without_menus(all: Seq<PlaylistModel>) -> Seq<PlaylistModel>
    decreases all.len(),
{
    if all.len() == 0 {
        seq![]
    } else {
        let rest = without_menus(all.drop_last());
        if loops(all.last().items) {
            rest
        } else {
            rest.push(all.last())
        }
    }
}

/// Playlists paired with their numbers.
pub open spec fn keyed(all: Seq<PlaylistModel>) -> Seq<(u128, PlaylistModel)> {
    all.map_values(|p: PlaylistModel| (p.number as u128, p))
}

/// Playlists in order of their numbers.
pub open spec fn by_number(all: Seq<PlaylistModel>) -> Seq<PlaylistModel> {
    stable_sorted(keyed(all)).map_values(|k: (u128, PlaylistModel)| k.1)
}

/// The playlists that a disc offers: without menus and duplicates, by number.
pub open spec fn offered(all: Seq<PlaylistModel>) -> Seq<PlaylistModel> {
    let kept = without_menus(all);
    by_number(distinct(kept, kept.len() as int))
}

/// The analysed playlists of a disc.
pub open spec fn offered_analyzed(all: Seq<PlaylistModel>) -> Seq<AnalyzedModel> {
    let list = offered(all);
    Seq::new(list.len(), |i: int| with_members(analyzed(list[i]), members_of(list, i)))
}

/// The clip information files of a disc, if it has the directory.
pub type ClipFiles = Option<(String, Vec<ClipFile>)>;

/// Whether an analysis holds what the clip information files say, next to all
/// playlists that were parsed.
pub open spec fn clips_entered(
    files: ClipFiles,
    all: Seq<PlaylistModel>,
    a: BdmvAnalysis,
) -> bool {
    match files {
        None => a.ig_clips@.len() == 0 && a.unreferenced_clips@.len() == 0
            && a.clip_warnings@.len() == 0,
        Some((dir, files)) => {
            let clips = clips_upto(dir@, files@, files@.len() as int);
            &&& ig_clips_of(a.ig_clips@) == ig_clips_in(clips, clips.len() as int)
            &&& unreferenced_of(a.unreferenced_clips@) == unreferenced_in(
                clips,
                all,
                clips.len() as int,
            )
            &&& clip_warnings_of(a.clip_warnings@) == clip_warnings_upto(
                dir@,
                files@,
                files@.len() as int,
            )
        },
    }
}

/// Whether an analysis of a disc comes to `result`.
pub open spec fn analysis_result(
    dir: Seq<char>,
    files: Result<Vec<PlaylistFile>, ReaderError>,
    clip_files: ClipFiles,
    result: Result<BdmvAnalysis, BdmvError>,
) -> bool {
    match files {
        Err(e) => result == Err::<BdmvAnalysis, BdmvError>(BdmvError::PlaylistDir(e)),
        Ok(files) => {
            let all = playlists_of(parsed_upto(files@, files@.len() as int));
            let warnings = playlist_warnings_upto(dir, files@, files@.len() as int);
            let list = offered(all);
            if list.len() == 0 {
                result == Err::<BdmvAnalysis, BdmvError>(BdmvError::NoPlaylists)
            } else {
                &&& result matches Ok(a)
                &&& analyzed_of(a.playlists@) == offered_analyzed(all)
                &&& a.main_title == main_title_of(list)
                &&& playlist_warnings_of(a.warnings@) == warnings
                &&& clips_entered(clip_files, all, a)
                &&& a.partially_used_clips@.len() == 0
                &&& a.title_playlists@ == Set::<u32>::empty()
            }
        },
    }
}

/// Whether the lengths of all playlists that could be parsed can be computed.
pub open spec fn computable(files: Result<Vec<PlaylistFile>, ReaderError>) -> bool {
    files matches Ok(files) ==> forall|i: int|
        0 <= i < files@.len() ==> (match (#[trigger] files@[i]).outcome {
            PlaylistOutcome::Parsed(p) => within_limits(p@),
            _ => true,
        })
}

fn drop_menus(playlists: Vec<Playlist>) -> (kept: Vec<Playlist>)
    ensures
        playlists_of(kept@) == without_menus(playlists_of(playlists@)),
{
    let ghost all = playlists_of(playlists@);
    let mut kept: Vec<Playlist> = Vec::new();
    proof {
        assert(playlists_of(kept@) =~= without_menus(all.take(0)));
    }
    for p in it: playlists
        invariant
            it.seq() == playlists@,
            all == playlists_of(playlists@),
            playlists_of(kept@) == without_menus(all.take(it.index())),
            it.index() == playlists@.len() ==> playlists_of(kept@) == without_menus(all),
    {
        let ghost done = playlists_of(kept@);
        let ghost n = it.index();
        proof {
            assert(all.take(n + 1).drop_last() =~= all.take(n));
            assert(all.take(n + 1).last() == p@);
            if n + 1 == all.len() {
                assert(all.take(n + 1) =~= all);
            }
        }
        if !is_looping(&p) {
            kept.push(p);
            proof {
                assert(playlists_of(kept@) =~= done.push(p@));
            }
        }
    }
    kept
}

fn sort_by_number(playlists: Vec<Playlist>) -> (sorted: Vec<Playlist>)
    ensures
        playlists_of(sorted@) == by_number(playlists_of(playlists@)),
{
    let ghost all = playlists_of(playlists@);
    let mut pairs: Vec<(u128, Playlist)> = Vec::new();
    for p in it: playlists
        invariant
            it.seq() == playlists@,
            pairs@.len() == it.index(),
            forall|j: int|
                0 <= j < it.index() ==> #[trigger] pairs@[j] == (
                    playlists@[j].number as u128,
                    playlists@[j],
                ),
            it.index() == playlists@.len() ==> pairs@.len() == playlists@.len(),
    {
        pairs.push((p.number as u128, p));
    }
    let ghost before = pairs@;
    let sorted_pairs: Vec<(u128, Playlist)> = stable_sort(pairs);
    proof {
        let model = |p: Playlist| p@;
        lemma_sorted_mapped(before, model);
        assert(mapped(before, model) =~= keyed(all));
    }
    let ghost ordered = sorted_pairs@;
    let mut sorted: Vec<Playlist> = Vec::new();
    for pair in it: sorted_pairs
        invariant
            it.seq() == ordered,
            sorted@.len() == it.index(),
            forall|j: int| 0 <= j < it.index() ==> #[trigger] sorted@[j] == ordered[j].1,
            it.index() == ordered.len() ==> sorted@.len() == ordered.len(),
    {
        sorted.push(pair.1);
    }
    proof {
        assert(playlists_of(sorted@) =~= by_number(all));
    }
    sorted
}

/// Whether the lengths of all playlists can be computed.
pub open spec fn all_within_limits(all: Seq<PlaylistModel>) -> bool {
    forall|i: int| 0 <= i < all.len() ==> within_limits(#[trigger] all[i])
}

proof fn lemma_parsed_within(files: Seq<PlaylistFile>, n: int)
    requires
        0 <= n <= files.len(),
        forall|i: int|
            0 <= i < files.len() ==> (match (#[trigger] files[i]).outcome {
                PlaylistOutcome::Parsed(p) => within_limits(p@),
                _ => true,
            }),
    ensures
        all_within_limits(playlists_of(parsed_upto(files, n))),
    decreases n,
{
    if n > 0 {
        lemma_parsed_within(files, n - 1);
        let before = playlists_of(parsed_upto(files, n - 1));
        let now = playlists_of(parsed_upto(files, n));
        match files[n - 1].outcome {
            PlaylistOutcome::Parsed(p) => {
                assert(now =~= before.push(p@));
            },
            _ => {},
        }
    }
}

proof fn lemma_kept_within(all: Seq<PlaylistModel>)
    requires
        all_within_limits(all),
    ensures
        all_within_limits(without_menus(all)),
    decreases all.len(),
{
    if all.len() > 0 {
        assert forall|i: int| 0 <= i < all.drop_last().len() implies within_limits(
            #[trigger] all.drop_last()[i],
        ) by {
            assert(within_limits(all[i]));
        }
        lemma_kept_within(all.drop_last());
    }
}

proof fn lemma_best_in_range(all: Seq<PlaylistModel>, i: int, n: int)
    requires
        0 <= i < all.len(),
        n <= all.len(),
    ensures
        0 <= best_duplicate(all, i, n) < all.len(),
    decreases n,
{
    if n > 0 {
        lemma_best_in_range(all, i, n - 1);
    }
}

proof fn lemma_distinct_within(all: Seq<PlaylistModel>, n: int)
    requires
        all_within_limits(all),
        0 <= n <= all.len(),
    ensures
        all_within_limits(distinct(all, n)),
    decreases n,
{
    if n > 0 {
        lemma_distinct_within(all, n - 1);
        lemma_best_in_range(all, n - 1, all.len() as int);
    }
}

proof fn lemma_sorted_within(all: Seq<PlaylistModel>)
    requires
        all_within_limits(all),
    ensures
        all_within_limits(by_number(all)),
        by_number(all).len() == all.len(),
{
    let pairs = keyed(all);
    let sorted = stable_sorted(pairs);
    lemma_sorted_members(pairs);
    assert forall|i: int| 0 <= i < sorted.len() implies within_limits(
        #[trigger] by_number(all)[i],
    ) by {
        assert(pairs.contains(sorted[i]));
        let k = choose|k: int| 0 <= k < pairs.len() && pairs[k] == sorted[i];
        assert(within_limits(all[k]));
    }
}

/// Every playlist that a disc offers can be analysed if those read can.
pub proof fn lemma_offered_within(all: Seq<PlaylistModel>)
    requires
        all_within_limits(all),
    ensures
        all_within_limits(offered(all)),
        offered(all).len() == distinct(
            without_menus(all),
            without_menus(all).len() as int,
        ).len(),
{
    let kept = without_menus(all);
    lemma_kept_within(all);
    lemma_distinct_within(kept, kept.len() as int);
    lemma_sorted_within(distinct(kept, kept.len() as int));
}

fn analyze_all(playlists: &Vec<Playlist>) -> (list: Vec<AnalyzedPlaylist>)
    requires
        all_within_limits(playlists_of(playlists@)),
    ensures
        list@.len() == playlists@.len(),
        forall|i: int|
            0 <= i < list@.len() ==> (#[trigger] list@[i])@ == with_members(
                analyzed(playlists@[i]@),
                members_of(playlists_of(playlists@), i),
            ),
{
    let ghost all = playlists_of(playlists@);
    let mut list: Vec<AnalyzedPlaylist> = Vec::new();
    let mut i: usize = 0;
    while i < playlists.len()
        invariant
            i <= playlists.len(),
            all == playlists_of(playlists@),
            all_within_limits(all),
            list@.len() == i,
            forall|j: int| 0 <= j < i ==> (#[trigger] list@[j])@ == analyzed(playlists@[j]@),
        decreases playlists.len() - i,
    {
        assert(within_limits(all[i as int]));
        list.push(analyze_playlist(&playlists[i]));
        i = i + 1;
    }
    proof {
        assert forall|k: int| 0 <= k < playlists@.len() implies within_limits(
            (#[trigger] playlists@[k])@,
        ) by {
            assert(within_limits(all[k]));
        }
    }
    apply_composite_grouping(playlists, &mut list);
    list
}

/// Analyses a disc. `dir` is the playlist directory, `files` what its playlist
/// files came to, and `clip_files` the directory of the clip information files
/// with what reading them gave.
pub fn analyze(
    dir: &str,
    files: Result<Vec<PlaylistFile>, ReaderError>,
    clip_files: ClipFiles,
) -> (result: Result<BdmvAnalysis, BdmvError>)
    requires
        computable(files),
    ensures
        analysis_result(dir@, files, clip_files, result),
{
    let files: Vec<PlaylistFile> = match files {
        Ok(files) => files,
        Err(e) => {
            return Err(BdmvError::PlaylistDir(e));
        },
    };
    let ghost all = playlists_of(parsed_upto(files@, files@.len() as int));
    proof {
        lemma_parsed_within(files@, files@.len() as int);
        lemma_offered_within(all);
    }
    let (read, warnings) = read_playlists(dir, files);
    let mut ig_clips: Vec<IgClip> = Vec::new();
    let mut unreferenced_clips: Vec<UnreferencedClip> = Vec::new();
    let mut clip_warnings: Vec<ClipWarning> = Vec::new();
    if let Some((clip_dir, entries)) = clip_files {
        let (clips, found) = read_clips(clip_dir.as_str(), &entries);
        proof {
            assert(clip_models(clips@).len() == clips@.len());
        }
        ig_clips = identify_ig_clips(&clips);
        unreferenced_clips = find_unreferenced_clips(&clips, &read);
        clip_warnings = found;
    }
    let kept: Vec<Playlist> = drop_menus(read);
    let unique: Vec<Playlist> = dedup_playlists(&kept);
    proof {
        assert(playlists_of(unique@).len() == unique@.len());
        assert(kept@.len() == playlists_of(kept@).len());
    }
    if unique.is_empty() {
        return Err(BdmvError::NoPlaylists);
    }
    let playlists: Vec<Playlist> = sort_by_number(unique);
    let ghost list = playlists_of(playlists@);
    proof {
        assert(list == offered(all));
        assert forall|i: int| 0 <= i < playlists@.len() implies ticks(
            (#[trigger] playlists@[i])@.items,
        ) <= u64::MAX by {
            assert(within_limits(list[i]));
        }
    }
    let main_title: Option<u32> = identify_main_title(&playlists);
    let analyzed: Vec<AnalyzedPlaylist> = analyze_all(&playlists);
    proof {
        assert(analyzed_of(analyzed@) =~= offered_analyzed(all));
    }
    let a: BdmvAnalysis = BdmvAnalysis {
        playlists: analyzed,
        main_title,
        ig_clips,
        unreferenced_clips,
        partially_used_clips: Vec::new(),
        warnings,
        clip_warnings,
        title_playlists: HashSet::new(),
    };
    Ok(a)
}

// ---------------------------------------------------------------------------
// Laws
// ---------------------------------------------------------------------------

proof fn lemma_without_menus(all: Seq<PlaylistModel>)
    ensures
        forall|i: int|
            0 <= i < without_menus(all).len() ==> !loops(
                (#[trigger] without_menus(all)[i]).items,
            ) && all.contains(without_menus(all)[i]),
    decreases all.len(),
{
    if all.len() > 0 {
        lemma_without_menus(all.drop_last());
        let rest = without_menus(all.drop_last());
        let now = without_menus(all);
        assert forall|i: int| 0 <= i < now.len() implies !loops((#[trigger] now[i]).items)
            && all.contains(now[i]) by {
            if i < rest.len() {
                assert(now[i] == rest[i]);
                let k = choose|k: int|
                    0 <= k < all.drop_last().len() && all.drop_last()[k] == rest[i];
                assert(all[k] == now[i]);
            } else {
                assert(all[all.len() - 1] == now[i]);
            }
        }
    }
}

proof fn lemma_menus_only_dropped(all: Seq<PlaylistModel>, i: int)
    requires
        0 <= i < all.len(),
        !loops(all[i].items),
    ensures
        without_menus(all).contains(all[i]),
    decreases all.len(),
{
    let rest = without_menus(all.drop_last());
    let now = without_menus(all);
    if i == all.len() - 1 {
        assert(now[rest.len() as int] == all[i]);
    } else {
        assert(all.drop_last()[i] == all[i]);
        lemma_menus_only_dropped(all.drop_last(), i);
        let k = choose|k: int| 0 <= k < rest.len() && rest[k] == all[i];
        assert(now[k] == all[i]);
    }
}

/// Of every playlist that was read and is no looping menu, the disc offers a
/// duplicate to which it is not preferred.
pub proof fn law_every_playlist_offered(all: Seq<PlaylistModel>, i: int)
    requires
        0 <= i < all.len(),
        !loops(all[i].items),
    ensures
        exists|k: int|
            0 <= k < offered(all).len() && signatures(#[trigger] offered(all)[k]) == signatures(
                all[i],
            ) && !preferred(all[i], offered(all)[k]),
{
    let kept = without_menus(all);
    let unique = distinct(kept, kept.len() as int);
    let pairs = keyed(unique);
    let sorted = stable_sorted(pairs);
    lemma_menus_only_dropped(all, i);
    let a = choose|a: int| 0 <= a < kept.len() && kept[a] == all[i];
    law_preferred_duplicate_kept(kept, a);
    let b = choose|b: int|
        0 <= b < unique.len() && signatures(#[trigger] unique[b]) == signatures(kept[a])
            && !preferred(kept[a], unique[b]);
    lemma_sorted_members(pairs);
    assert(pairs[b] == (unique[b].number as u128, unique[b]));
    assert(sorted.contains(pairs[b]));
    let k = choose|k: int| 0 <= k < sorted.len() && sorted[k] == pairs[b];
    assert(offered(all)[k] == unique[b]);
}

/// The playlists that a disc offers are some of those read, in ascending order
/// of their numbers. None is a looping menu, and no two are duplicates.
pub proof fn law_offered_playlists(all: Seq<PlaylistModel>)
    ensures
        forall|i: int|
            0 <= i < offered(all).len() ==> all.contains(#[trigger] offered(all)[i]) && !loops(
                offered(all)[i].items,
            ),
        forall|i: int, j: int|
            0 <= i < j < offered(all).len() ==> (#[trigger] offered(all)[i]).number <= (
            #[trigger] offered(all)[j]).number,
        forall|i: int, j: int|
            0 <= i < j < offered(all).len() ==> signatures(#[trigger] offered(all)[i])
                != signatures(#[trigger] offered(all)[j]),
{
    broadcast use vstd::seq_lib::group_to_multiset_ensures;

    let kept = without_menus(all);
    let unique = distinct(kept, kept.len() as int);
    let pairs = keyed(unique);
    let sorted = stable_sorted(pairs);
    lemma_without_menus(all);
    lemma_sorted_members(pairs);
    law_sorting_orders_keys(pairs);
    law_sorting_keeps_elements(pairs);
    assert forall|i: int| 0 <= i < sorted.len() implies unique.contains(
        (#[trigger] sorted[i]).1,
    ) by {
        assert(pairs.contains(sorted[i]));
        let k = choose|k: int| 0 <= k < pairs.len() && pairs[k] == sorted[i];
        assert(unique[k] == sorted[i].1);
    }
    assert forall|i: int| 0 <= i < offered(all).len() implies all.contains(
        #[trigger] offered(all)[i],
    ) && !loops(offered(all)[i].items) by {
        assert(unique.contains(sorted[i].1));
        let k = choose|k: int| 0 <= k < unique.len() && unique[k] == sorted[i].1;
        if kept.len() > 0 {
            law_preferred_duplicate_kept(kept, 0);
        }
        assert(kept.contains(unique[k]));
        let m = choose|m: int| 0 <= m < kept.len() && kept[m] == unique[k];
        assert(!loops(kept[m].items));
    }
    assert forall|i: int, j: int| 0 <= i < j < offered(all).len() implies (
    #[trigger] offered(all)[i]).number <= (#[trigger] offered(all)[j]).number by {
        assert(pairs.contains(sorted[i]));
        assert(pairs.contains(sorted[j]));
        assert(sorted[i].0 <= sorted[j].0);
    }
    assert forall|i: int, j: int| 0 <= i < j < offered(all).len() implies signatures(
        #[trigger] offered(all)[i],
    ) != signatures(#[trigger] offered(all)[j]) by {
        if signatures(offered(all)[i]) == signatures(offered(all)[j]) {
            assert(pairs.contains(sorted[i]));
            assert(pairs.contains(sorted[j]));
            let a = choose|a: int| 0 <= a < pairs.len() && pairs[a] == sorted[i];
            let b = choose|b: int| 0 <= b < pairs.len() && pairs[b] == sorted[j];
            if a < b {
                law_kept_playlists_differ(kept, a, b);
            } else if b < a {
                law_kept_playlists_differ(kept, b, a);
            }
            assert(sorted[i] == sorted[j]);
            assert(pairs.no_duplicates()) by {
                assert forall|x: int, y: int|
                    0 <= x < pairs.len() && 0 <= y < pairs.len() && x != y implies pairs[x]
                    != pairs[y] by {
                    if x < y {
                        law_kept_playlists_differ(kept, x, y);
                    } else {
                        law_kept_playlists_differ(kept, y, x);
                    }
                }
            }
            pairs.lemma_multiset_has_no_duplicates();
            sorted.lemma_multiset_has_no_duplicates_conv();
        }
    }
}

} // verus!
