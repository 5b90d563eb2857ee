//! The title table of a disc: which movie object or application each title
//! starts.
use std::collections::{HashMap, HashSet};

use vstd::prelude::*;
use vstd::string::*;

use crate::cursor::{
    be16, be32, beyond, eof_text, fields, get_u16, get_u32, items, lemma_items_err, Cursor,
    CursorError, Parsed,
};
use crate::lossy::{from_utf8_lossy, text_of};
use crate::mobj::vm::{run, run_mobj_vm, seed_gpr_state, seeded};
use crate::mobj::{DispatchTable, MovieObjectFile, PlayTarget, VM_STEP_LIMIT};
use crate::text::{bytes_text, debug_bytes, decimal, to_decimal};

pub mod laws;

verus! {

broadcast use vstd::std_specs::hash::group_hash_axioms;

/// Why an `index.bdmv` file cannot be parsed.
#[derive(Debug, Clone, Copy, PartialEq, Eq)]
pub enum IndexError {
    /// The file is smaller than its header.
    TooSmall {
        /// Size of the file.
        size: usize,
    },
    /// The file does not start with `INDX`.
    InvalidMagic {
        /// The first four bytes.
        found: [u8; 4],
    },
    /// The file ends too early.
    UnexpectedEof {
        /// Position of the read.
        offset: usize,
        /// Number of bytes asked for.
        needed: usize,
        /// Number of bytes that there were.
        available: usize,
    },
}

impl vstd::std_specs::convert::FromSpecImpl<CursorError> for IndexError {
    open spec fn obeys_from_spec() -> bool {
        true
    }

    open spec fn from_spec(e: CursorError) -> IndexError {
        IndexError::eof(e)
    }
}

impl From<CursorError> for IndexError {
    fn from(e: CursorError) -> (r: IndexError) {
        IndexError::UnexpectedEof { offset: e.offset, needed: e.needed, available: e.available }
    }
}

impl IndexError {
    /// The error for a read past the end of the data.
    pub open spec fn eof(e: CursorError) -> IndexError {
        IndexError::UnexpectedEof { offset: e.offset, needed: e.needed, available: e.available }
    }

    /// The message of the error.
    pub open spec fn text(self) -> Seq<char> {
        match self {
            IndexError::TooSmall { size } => "file too small ("@ + decimal(size as nat)
                + " bytes, need at least 16)"@,
            IndexError::InvalidMagic { found } => "invalid magic: expected \"INDX\", got "@
                + bytes_text(found@),
            IndexError::UnexpectedEof { offset, needed, available } => eof_text(
                CursorError { offset, needed, available },
            ),
        }
    }

    /// Describes the error.
    pub fn message(&self) -> (text: String)
        ensures
            text@ == self.text(),
    {
        match *self {
            IndexError::TooSmall { size } => {
                let mut text: String = String::from_str("file too small (");
                text.append(to_decimal(size as u64).as_str());
                text.append(" bytes, need at least 16)");
                text
            },
            IndexError::InvalidMagic { found } => {
                let mut text: String = String::from_str("invalid magic: expected \"INDX\", got ");
                text.append(debug_bytes(&found).as_str());
                text
            },
            IndexError::UnexpectedEof { offset, needed, available } => CursorError {
                offset,
                needed,
                available,
            }.message(),
        }
    }
}

// ---------------------------------------------------------------------------
// Types
// ---------------------------------------------------------------------------

/// The title table.
#[derive(Debug)]
pub struct DiscIndex {
    /// What starts when the disc is inserted.
    pub first_play: PlayItem,
    /// The top menu.
    pub top_menu: PlayItem,
    /// Titles in order, the first being title 1.
    pub titles: Vec<Title>,
}

/// What a title starts.
#[derive(Debug, Clone)]
pub enum ObjectType {
    /// A movie object.
    Hdmv {
        /// Playback type.
        playback_type: u8,
        /// Index of the movie object.
        id_ref: u16,
    },
    /// An application.
    Bdj {
        /// Playback type.
        playback_type: u8,
        /// Name of the application.
        name: String,
    },
}

/// First play or top menu.
#[derive(Debug, Clone)]
pub struct PlayItem {
    /// What starts.
    pub object: ObjectType,
}

/// A title.
#[derive(Debug, Clone)]
pub struct Title {
    /// Access type.
    pub access_type: u8,
    /// What starts.
    pub object: ObjectType,
}

/// Contents of an [`ObjectType`].
pub enum ObjectModel {
    /// A movie object.
    Hdmv {
        /// Playback type.
        playback_type: u8,
        /// Index of the movie object.
        id_ref: u16,
    },
    /// An application.
    Bdj {
        /// Playback type.
        playback_type: u8,
        /// Name of the application.
        name: Seq<char>,
    },
}

impl View for ObjectType {
    type V = ObjectModel;

    open spec fn view(&self) -> ObjectModel {
        match self {
            ObjectType::Hdmv { playback_type, id_ref } => ObjectModel::Hdmv {
                playback_type: *playback_type,
                id_ref: *id_ref,
            },
            ObjectType::Bdj { playback_type, name } => ObjectModel::Bdj {
                playback_type: *playback_type,
                name: name@,
            },
        }
    }
}

/// Contents of a title: access type and what starts.
pub open spec fn titles_of(list: Seq<Title>) -> Seq<(u8, ObjectModel)> {
    list.map_values(|t: Title| (t.access_type, t.object@))
}

// ---------------------------------------------------------------------------
// The file
// ---------------------------------------------------------------------------

/// The first four bytes of the file: `INDX`.
pub open spec fn magic() -> Seq<u8> {
    seq![0x49, 0x4E, 0x44, 0x58]
}

/// Header and body of an object reference.
pub open spec fn object_layout() -> Seq<usize> {
    seq![4, 8]
}

/// Object references. The top two bits of the header are the object type,
/// where 2 is an application and anything else a movie object. The top two
/// bits of the body are the playback type.
pub open spec fn object_parser(d: Seq<u8>) -> spec_fn(int) -> Parsed<ObjectModel> {
    |p: int|
        match fields(d.len(), p, object_layout(), 0) {
            Ok(end) => Ok(
                (
                    if d[p] / 64 == 2 {
                        ObjectModel::Bdj {
                            playback_type: d[p + 4] / 64,
                            name: text_of(d.subrange(p + 6, p + 11)),
                        }
                    } else {
                        ObjectModel::Hdmv {
                            playback_type: d[p + 4] / 64,
                            id_ref: be16(d, p + 6),
                        }
                    },
                    end,
                ),
            ),
            Err(e) => Err(e),
        }
}

/// Titles: object references whose header also holds the access type, in the
/// two bits after the object type.
pub open spec fn title_parser(d: Seq<u8>) -> spec_fn(int) -> Parsed<(u8, ObjectModel)> {
    |p: int|
        match object_parser(d)(p) {
            Ok((object, end)) => Ok(((d[p] / 16 % 4, object), end)),
            Err(e) => Err(e),
        }
}

/// First play, top menu and titles of a file.
pub open spec fn file_index(d: Seq<u8>) -> Parsed<
    (ObjectModel, ObjectModel, Seq<(u8, ObjectModel)>),
> {
    let start = be32(d, 8) as int;
    if start > d.len() {
        Err(beyond(start))
    } else {
        match fields(d.len(), start, seq![4], 0) {
            Err(e) => Err(e),
            Ok(p1) => match object_parser(d)(p1) {
                Err(e) => Err(e),
                Ok((first, p2)) => match object_parser(d)(p2) {
                    Err(e) => Err(e),
                    Ok((menu, p3)) => match fields(d.len(), p3, seq![2], 0) {
                        Err(e) => Err(e),
                        Ok(p4) => match items(title_parser(d), p4, be16(d, p3) as int) {
                            Err(e) => Err(e),
                            Ok((titles, end)) => Ok(((first, menu, titles), end)),
                        },
                    },
                },
            },
        }
    }
}

fn parse_object_ref(r: &mut Cursor<'_>) -> (result: Result<ObjectType, IndexError>)
    requires
        old(r).pos <= old(r).bytes().len(),
    ensures
        final(r).bytes() == old(r).bytes(),
        final(r).pos <= final(r).bytes().len(),
        match object_parser(old(r).bytes())(old(r).pos as int) {
            Ok((m, end)) => result matches Ok(o) && o@ == m && final(r).pos == end && old(r).pos
                + 12 <= old(r).bytes().len(),
            Err(e) => result == Err::<ObjectType, IndexError>(IndexError::eof(e)),
        },
{
    let layout: [usize; 2] = [4, 8];
    proof {
        assert(layout@ =~= object_layout());
        reveal_with_fuel(fields, 4);
    }
    match r.skip_fields(&layout) {
        Ok(p) => {
            let playback_type: u8 = r.data[p + 4] / 64;
            if r.data[p] / 64 == 2 {
                let name: String = from_utf8_lossy(
                    vstd::slice::slice_subrange(r.data, p + 6, p + 11),
                );
                Ok(ObjectType::Bdj { playback_type, name })
            } else {
                Ok(ObjectType::Hdmv { playback_type, id_ref: get_u16(r.data, p + 6) })
            }
        },
        Err(e) => Err(IndexError::from(e)),
    }
}

fn parse_title(r: &mut Cursor<'_>) -> (result: Result<Title, IndexError>)
    requires
        old(r).pos <= old(r).bytes().len(),
    ensures
        final(r).bytes() == old(r).bytes(),
        final(r).pos <= final(r).bytes().len(),
        match title_parser(old(r).bytes())(old(r).pos as int) {
            Ok((m, end)) => result matches Ok(t) && (t.access_type, t.object@) == m && final(r).pos
                == end,
            Err(e) => result == Err::<Title, IndexError>(IndexError::eof(e)),
        },
{
    let p: usize = r.pos;
    match parse_object_ref(r) {
        Ok(object) => Ok(Title { access_type: r.data[p] / 16 % 4, object }),
        Err(e) => Err(e),
    }
}

/// Parses an `index.bdmv` file.
pub fn parse(data: &[u8]) -> (result: Result<DiscIndex, IndexError>)
    ensures
        data@.len() < 16 ==> result == Err::<DiscIndex, IndexError>(
            IndexError::TooSmall { size: data@.len() as usize },
        ),
        data@.len() >= 16 && data@.take(4) != magic() ==> (result matches Err(
            IndexError::InvalidMagic { found },
        ) && found@ == data@.take(4)),
        data@.len() >= 16 && data@.take(4) == magic() ==> match file_index(data@) {
            Ok(((first, menu, titles), _)) => result matches Ok(index) && index.first_play.object@
                == first && index.top_menu.object@ == menu && titles_of(index.titles@) == titles,
            Err(e) => result == Err::<DiscIndex, IndexError>(IndexError::eof(e)),
        },
{
    let ghost d = data@;
    if data.len() < 16 {
        return Err(IndexError::TooSmall { size: data.len() });
    }
    let found: [u8; 4] = [data[0], data[1], data[2], data[3]];
    proof {
        assert(found@ =~= d.take(4));
    }
    if found[0] != 0x49 || found[1] != 0x4E || found[2] != 0x44 || found[3] != 0x58 {
        return Err(IndexError::InvalidMagic { found });
    }
    proof {
        assert(found@ =~= magic());
    }
    let four: [usize; 1] = [4];
    let two: [usize; 1] = [2];
    proof {
        assert(four@ =~= seq![4usize]);
        assert(two@ =~= seq![2usize]);
        reveal_with_fuel(fields, 3);
    }
    let mut r: Cursor = Cursor::new(data);
    match r.seek(get_u32(data, 8) as usize) {
        Ok(()) => {},
        Err(e) => {
            return Err(IndexError::from(e));
        },
    }
    match r.skip_fields(&four) {
        Ok(_) => {},
        Err(e) => {
            return Err(IndexError::from(e));
        },
    }
    let first_play: PlayItem = match parse_object_ref(&mut r) {
        Ok(object) => PlayItem { object },
        Err(e) => {
            return Err(e);
        },
    };
    let top_menu: PlayItem = match parse_object_ref(&mut r) {
        Ok(object) => PlayItem { object },
        Err(e) => {
            return Err(e);
        },
    };
    let count: u16 = match r.skip_fields(&two) {
        Ok(p) => get_u16(data, p),
        Err(e) => {
            return Err(IndexError::from(e));
        },
    };
    let ghost start = r.pos as int;
    let ghost item = title_parser(d);
    let mut titles: Vec<Title> = Vec::new();
    proof {
        assert(titles_of(titles@) =~= seq![]);
    }
    let mut i: u16 = 0;
    while i < count
        invariant
            i <= count,
            d == data@,
            d.len() >= 16,
            d.take(4) == magic(),
            item == title_parser(d),
            r.bytes() == d,
            r.pos <= d.len(),
            items(item, start, i as int) == Ok::<(Seq<(u8, ObjectModel)>, int), CursorError>(
                (titles_of(titles@), r.pos as int),
            ),
            file_index(d) == match items(item, start, count as int) {
                Err(e) => Err::<
                    ((ObjectModel, ObjectModel, Seq<(u8, ObjectModel)>), int),
                    CursorError,
                >(e),
                Ok((all, end)) => Ok(((first_play.object@, top_menu.object@, all), end)),
            },
        decreases count - i,
    {
        let ghost before = titles_of(titles@);
        match parse_title(&mut r) {
            Ok(t) => {
                titles.push(t);
                proof {
                    assert(titles_of(titles@) =~= before.push((t.access_type, t.object@)));
                }
            },
            Err(e) => {
                proof {
                    lemma_items_err(item, start, i + 1, count as int);
                }
                return Err(e);
            },
        }
        i = i + 1;
    }
    Ok(DiscIndex { first_play, top_menu, titles })
}

// ---------------------------------------------------------------------------
// Titles and playlists
// ---------------------------------------------------------------------------

/// The movie object that a title starts, if the file has it.
pub open spec fn title_object(title: ObjectModel, file: MovieObjectFile) -> Option<int> {
    match title {
        ObjectModel::Hdmv { playback_type, id_ref } if id_ref < file.objects@.len() => Some(
            id_ref as int,
        ),
        _ => None,
    }
}

/// What the movie object of a title plays first.
pub open spec fn title_plays(index: int, file: MovieObjectFile) -> Option<PlayTarget> {
    run(
        file.objects@[index].instructions@,
        0,
        seeded(file),
        Set::empty(),
        VM_STEP_LIMIT as nat,
    ).0
}

/// Whether a title's movie object plays the playlist.
pub open spec fn registers(title: ObjectModel, file: MovieObjectFile, playlist: u32) -> bool {
    title_object(title, file) matches Some(index) && title_plays(index, file) matches Some(target)
        && target.playlist == playlist
}

/// Whether a title's movie object plays nothing.
pub open spec fn unresolved(title: ObjectModel, file: MovieObjectFile) -> bool {
    title_object(title, file) matches Some(index) && title_plays(index, file) is None
}

/// Whether one of the cases plays the playlist.
pub open spec fn case_plays(cases: Seq<(u32, u16)>, playlist: u32) -> bool {
    exists|i: int| 0 <= i < cases.len() && (#[trigger] cases[i]).1 == playlist
}

/// Whether a dispatch table has a case that plays the playlist.
pub open spec fn dispatches(table: Option<&DispatchTable>, playlist: u32) -> bool {
    match table {
        Some(t) => case_plays(t.cases@, playlist),
        None => false,
    }
}

/// Whether one of the titles plays nothing.
pub open spec fn any_unresolved(titles: Seq<Title>, file: MovieObjectFile) -> bool {
    exists|i: int| 0 <= i < titles.len() && unresolved(#[trigger] titles[i].object@, file)
}

/// Whether one of the titles plays the playlist.
pub open spec fn any_registers(titles: Seq<Title>, file: MovieObjectFile, playlist: u32) -> bool {
    exists|i: int| 0 <= i < titles.len() && registers(#[trigger] titles[i].object@, file, playlist)
}

/// Adds the playlists of all cases of a table.
fn add_cases(playlists: &mut HashSet<u32>, table: &DispatchTable)
    ensures
        forall|n: u32| #[trigger]
            final(playlists)@.contains(n) <==> old(playlists)@.contains(n) || dispatches(
                Some(table),
                n,
            ),
{
    let mut k: usize = 0;
    while k < table.cases.len()
        invariant
            k <= table.cases.len(),
            forall|n: u32| #[trigger] old(playlists)@.contains(n) ==> playlists@.contains(n),
            forall|j: int|
                0 <= j < k ==> playlists@.contains((#[trigger] table.cases@[j]).1 as u32),
            forall|n: u32| #[trigger]
                playlists@.contains(n) ==> old(playlists)@.contains(n) || dispatches(
                    Some(table),
                    n,
                ),
        decreases table.cases.len() - k,
    {
        let playlist: u32 = table.cases[k].1 as u32;
        assert(table.cases@[k as int].1 == playlist);
        assert(case_plays(table.cases@, playlist));
        playlists.insert(playlist);
        k = k + 1;
    }
}

/// Finds the playlists that a disc's titles play: what the movie object of
/// each title plays first, and all of a dispatch table's playlists if one of
/// these objects plays nothing. Applications, and titles whose movie object
/// does not exist, are passed over.
#[must_use]
pub fn resolve_title_playlists(
    index: &DiscIndex,
    mobj_file: &MovieObjectFile,
    dispatch_table: Option<&DispatchTable>,
) -> (playlists: HashSet<u32>)
    ensures
        forall|n: u32| #[trigger]
            playlists@.contains(n) <==> any_registers(index.titles@, *mobj_file, n) || (
            any_unresolved(index.titles@, *mobj_file) && dispatches(dispatch_table, n)),
{
    let any: HashSet<u32> = HashSet::new();
    let seed: HashMap<u32, u32> = seed_gpr_state(mobj_file);
    let mut playlists: HashSet<u32> = HashSet::new();
    let mut missing: bool = false;
    let ghost titles = index.titles@;
    let mut i: usize = 0;
    while i < index.titles.len()
        invariant
            i <= index.titles.len(),
            titles == index.titles@,
            any@ == Set::<u32>::empty(),
            seed@ == seeded(*mobj_file),
            forall|n: u32|
                playlists@.contains(n) <==> any_registers(titles.take(i as int), *mobj_file, n),
            missing == any_unresolved(titles.take(i as int), *mobj_file),
        decreases index.titles.len() - i,
    {
        let ghost before = playlists@;
        let ghost was_missing = missing;
        let ghost title = titles[i as int].object@;
        if let ObjectType::Hdmv { id_ref, .. } = &index.titles[i].object {
            let k: usize = *id_ref as usize;
            if k < mobj_file.objects.len() {
                let mut gprs: HashMap<u32, u32> = seed.clone();
                match run_mobj_vm(&mobj_file.objects[k].instructions, 0, &mut gprs, &any) {
                    Some(target) => {
                        playlists.insert(target.playlist as u32);
                    },
                    None => {
                        missing = true;
                    },
                }
            }
        }
        proof {
            let now = titles.take(i + 1);
            let earlier = titles.take(i as int);
            assert(now[i as int].object@ == title);
            assert forall|n: u32|
                playlists@.contains(n) <==> any_registers(now, *mobj_file, n) by {
                assert(playlists@.contains(n) <==> before.contains(n) || registers(
                    title,
                    *mobj_file,
                    n,
                ));
                if any_registers(earlier, *mobj_file, n) {
                    let j = choose|j: int|
                        0 <= j < earlier.len() && registers(
                            #[trigger] earlier[j].object@,
                            *mobj_file,
                            n,
                        );
                    assert(registers(now[j].object@, *mobj_file, n));
                }
                if any_registers(now, *mobj_file, n) {
                    let j = choose|j: int|
                        0 <= j < now.len() && registers(#[trigger] now[j].object@, *mobj_file, n);
                    if j < i {
                        assert(registers(earlier[j].object@, *mobj_file, n));
                    }
                }
            }
            assert(missing == (was_missing || unresolved(title, *mobj_file)));
            if any_unresolved(earlier, *mobj_file) {
                let j = choose|j: int|
                    0 <= j < earlier.len() && unresolved(#[trigger] earlier[j].object@, *mobj_file);
                assert(unresolved(now[j].object@, *mobj_file));
            }
            if any_unresolved(now, *mobj_file) {
                let j = choose|j: int|
                    0 <= j < now.len() && unresolved(#[trigger] now[j].object@, *mobj_file);
                if j < i {
                    assert(unresolved(earlier[j].object@, *mobj_file));
                }
            }
        }
        i = i + 1;
    }
    proof {
        assert(titles.take(i as int) =~= titles);
    }
    if missing {
        if let Some(table) = dispatch_table {
            add_cases(&mut playlists, table);
        }
    }
    playlists
}

// ---------------------------------------------------------------------------
// Laws
// ---------------------------------------------------------------------------

/// A title that starts an application is passed over: without it the titles
/// play the same playlists, and one of them plays nothing if one did before.
pub proof fn law_applications_passed_over(
    titles: Seq<Title>,
    file: MovieObjectFile,
    i: int,
    playlist: u32,
)
    requires
        0 <= i < titles.len(),
        titles[i].object@ is Bdj,
    ensures
        any_registers(titles.remove(i), file, playlist) == any_registers(titles, file, playlist),
        any_unresolved(titles.remove(i), file) == any_unresolved(titles, file),
{
    let rest = titles.remove(i);
    assert forall|j: int| 0 <= j < rest.len() implies #[trigger] rest[j] == titles[if j < i {
        j
    } else {
        j + 1
    }] by {}
    if any_registers(titles, file, playlist) {
        let j = choose|j: int|
            0 <= j < titles.len() && registers(#[trigger] titles[j].object@, file, playlist);
        let k = if j < i {
            j
        } else {
            j - 1
        };
        assert(registers(rest[k].object@, file, playlist));
    }
    if any_registers(rest, file, playlist) {
        let j = choose|j: int|
            0 <= j < rest.len() && registers(#[trigger] rest[j].object@, file, playlist);
        let k = if j < i {
            j
        } else {
            j + 1
        };
        assert(registers(titles[k].object@, file, playlist));
    }
    if any_unresolved(titles, file) {
        let j = choose|j: int|
            0 <= j < titles.len() && unresolved(#[trigger] titles[j].object@, file);
        let k = if j < i {
            j
        } else {
            j - 1
        };
        assert(unresolved(rest[k].object@, file));
    }
    if any_unresolved(rest, file) {
        let j = choose|j: int| 0 <= j < rest.len() && unresolved(#[trigger] rest[j].object@, file);
        let k = if j < i {
            j
        } else {
            j + 1
        };
        assert(unresolved(titles[k].object@, file));
    }
}

} // verus!
