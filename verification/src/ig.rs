//! Interactive graphics streams: the palettes, bitmaps and button pages of a
//! disc's menus.
//!
//! A stream is a sequence of segments, each with a type, a length and a body.
//! An end segment closes a display set.
use vstd::prelude::*;
use vstd::string::*;

use crate::cursor::{
    be16, be32, eof_text, fields, get_u16, get_u32, items, left, lemma_items_err, short, Cursor,
    CursorError, Parsed,
};
use crate::seqs::concat;

pub mod laws;

verus! {

/// Segment that holds a palette.
pub const SEG_PALETTE: u8 = 0x14;

/// Segment that holds a bitmap or a part of one.
pub const SEG_OBJECT: u8 = 0x15;

/// Segment that holds button pages.
pub const SEG_COMPOSITION: u8 = 0x18;

/// Segment that closes a display set.
pub const SEG_END_OF_DISPLAY: u8 = 0x80;

/// A bitmap in one segment.
pub const SEQ_FIRST_AND_LAST: u8 = 0xC0;

/// The first part of a bitmap.
pub const SEQ_FIRST: u8 = 0x80;

/// The last part of a bitmap.
pub const SEQ_LAST: u8 = 0x40;

/// Why a stream cannot be parsed.
#[derive(Debug, Clone, Copy, PartialEq, Eq, Structural)]
pub enum IgError {
    /// A segment ends too early. Inside a segment, positions count from the
    /// start of its body.
    UnexpectedEof {
        /// Position of the read.
        offset: usize,
        /// Number of bytes asked for.
        needed: usize,
        /// Number of bytes that there were.
        available: usize,
    },
}

impl vstd::std_specs::convert::FromSpecImpl<CursorError> for IgError {
    open spec fn obeys_from_spec() -> bool {
        true
    }

    open spec fn from_spec(e: CursorError) -> IgError {
        IgError::eof(e)
    }
}

impl From<CursorError> for IgError {
    fn from(e: CursorError) -> (r: IgError) {
        IgError::UnexpectedEof { offset: e.offset, needed: e.needed, available: e.available }
    }
}

impl IgError {
    /// The error for a read past the end of the data.
    pub open spec fn eof(e: CursorError) -> IgError {
        IgError::UnexpectedEof { offset: e.offset, needed: e.needed, available: e.available }
    }

    /// Describes the error.
    pub fn message(&self) -> (text: String)
        ensures
            match *self {
                IgError::UnexpectedEof { offset, needed, available } => text@ == eof_text(
                    CursorError { offset, needed, available },
                ),
            },
    {
        match *self {
            IgError::UnexpectedEof { offset, needed, available } => CursorError {
                offset,
                needed,
                available,
            }.message(),
        }
    }
}

// ---------------------------------------------------------------------------
// Types
// ---------------------------------------------------------------------------

/// A parsed stream.
#[derive(Debug)]
pub struct IgStream {
    /// Display sets in stream order.
    pub display_sets: Vec<DisplaySet>,
}

/// What is shown together.
#[derive(Debug)]
pub struct DisplaySet {
    /// Palettes.
    pub palettes: Vec<Palette>,
    /// Bitmaps.
    pub objects: Vec<ObjectDefinition>,
    /// Button pages.
    pub compositions: Vec<InteractiveComposition>,
}

/// Button pages for one screen size.
#[derive(Debug)]
pub struct InteractiveComposition {
    /// Width of the screen.
    pub width: u16,
    /// Height of the screen.
    pub height: u16,
    /// Pages in stream order.
    pub pages: Vec<Page>,
}

/// A page of buttons.
#[derive(Debug)]
pub struct Page {
    /// Page identifier.
    pub page_id: u8,
    /// Buttons of all overlap groups, in stream order.
    pub buttons: Vec<Button>,
}

/// A button.
#[derive(Debug)]
pub struct Button {
    /// Button identifier.
    pub button_id: u16,
    /// Horizontal position.
    pub x: u16,
    /// Vertical position.
    pub y: u16,
    /// First object shown while the button is not selected.
    pub normal_object_id: u16,
    /// First object shown while the button is selected.
    pub selected_object_id: u16,
    /// Program run when the button is activated.
    pub commands: Vec<NavigationCommand>,
}

/// A command of a button's program.
#[derive(Debug, Clone, Copy, PartialEq, Eq, Structural)]
pub enum NavigationCommand {
    /// Play a playlist.
    PlayPl {
        /// Playlist number.
        playlist: u16,
    },
    /// Any other command.
    Other {
        /// Instruction word.
        opcode: u32,
    },
}

/// A run-length encoded bitmap.
#[derive(Debug)]
pub struct ObjectDefinition {
    /// Object identifier.
    pub object_id: u16,
    /// Width in pixels.
    pub width: u16,
    /// Height in pixels.
    pub height: u16,
    /// Encoded pixels.
    pub rle_data: Vec<u8>,
}

/// A palette.
#[derive(Debug)]
pub struct Palette {
    /// Palette identifier.
    pub palette_id: u8,
    /// Entries in stream order.
    pub entries: Vec<PaletteEntry>,
}

/// A colour of a palette.
#[derive(Debug, Clone, Copy, PartialEq, Eq, Structural)]
pub struct PaletteEntry {
    /// Index of the colour.
    pub index: u8,
    /// Luma.
    pub y: u8,
    /// Red difference.
    pub cr: u8,
    /// Blue difference.
    pub cb: u8,
    /// Opacity.
    pub alpha: u8,
}

/// Contents of a [`Palette`].
#[verifier::ext_equal]
pub struct PaletteModel {
    /// Palette identifier.
    pub palette_id: u8,
    /// Entries in stream order.
    pub entries: Seq<PaletteEntry>,
}

/// Contents of an [`ObjectDefinition`].
#[verifier::ext_equal]
pub struct ObjectModel {
    /// Object identifier.
    pub object_id: u16,
    /// Width in pixels.
    pub width: u16,
    /// Height in pixels.
    pub height: u16,
    /// Encoded pixels.
    pub rle_data: Seq<u8>,
}

/// Contents of a [`Button`].
#[verifier::ext_equal]
pub struct ButtonModel {
    /// Button identifier.
    pub button_id: u16,
    /// Horizontal position.
    pub x: u16,
    /// Vertical position.
    pub y: u16,
    /// First object shown while the button is not selected.
    pub normal_object_id: u16,
    /// First object shown while the button is selected.
    pub selected_object_id: u16,
    /// Program run when the button is activated.
    pub commands: Seq<NavigationCommand>,
}

/// Contents of a [`Page`].
#[verifier::ext_equal]
pub struct PageModel {
    /// Page identifier.
    pub page_id: u8,
    /// Buttons of all overlap groups, in stream order.
    pub buttons: Seq<ButtonModel>,
}

/// Contents of an [`InteractiveComposition`].
#[verifier::ext_equal]
pub struct CompositionModel {
    /// Width of the screen.
    pub width: u16,
    /// Height of the screen.
    pub height: u16,
    /// Pages in stream order.
    pub pages: Seq<PageModel>,
}

/// Contents of a [`DisplaySet`].
#[verifier::ext_equal]
pub struct SetModel {
    /// Palettes.
    pub palettes: Seq<PaletteModel>,
    /// Bitmaps.
    pub objects: Seq<ObjectModel>,
    /// Button pages.
    pub compositions: Seq<CompositionModel>,
}

impl View for Palette {
    type V = PaletteModel;

    open spec fn view(&self) -> PaletteModel {
        PaletteModel { palette_id: self.palette_id, entries: self.entries@ }
    }
}

impl View for ObjectDefinition {
    type V = ObjectModel;

    open spec fn view(&self) -> ObjectModel {
        ObjectModel {
            object_id: self.object_id,
            width: self.width,
            height: self.height,
            rle_data: self.rle_data@,
        }
    }
}

impl View for Button {
    type V = ButtonModel;

    open spec fn view(&self) -> ButtonModel {
        ButtonModel {
            button_id: self.button_id,
            x: self.x,
            y: self.y,
            normal_object_id: self.normal_object_id,
            selected_object_id: self.selected_object_id,
            commands: self.commands@,
        }
    }
}

/// Contents of buttons.
pub open spec fn buttons_of(list: Seq<Button>) -> Seq<ButtonModel> {
    list.map_values(|b: Button| b@)
}

impl View for Page {
    type V = PageModel;

    open spec fn view(&self) -> PageModel {
        PageModel { page_id: self.page_id, buttons: buttons_of(self.buttons@) }
    }
}

/// Contents of pages.
pub open spec fn pages_of(list: Seq<Page>) -> Seq<PageModel> {
    list.map_values(|p: Page| p@)
}

impl View for InteractiveComposition {
    type V = CompositionModel;

    open spec fn view(&self) -> CompositionModel {
        CompositionModel { width: self.width, height: self.height, pages: pages_of(self.pages@) }
    }
}

/// Contents of palettes.
pub open spec fn palettes_of(list: Seq<Palette>) -> Seq<PaletteModel> {
    list.map_values(|p: Palette| p@)
}

/// Contents of bitmaps.
pub open spec fn objects_of(list: Seq<ObjectDefinition>) -> Seq<ObjectModel> {
    list.map_values(|o: ObjectDefinition| o@)
}

/// Contents of compositions.
pub open spec fn compositions_of(list: Seq<InteractiveComposition>) -> Seq<CompositionModel> {
    list.map_values(|c: InteractiveComposition| c@)
}

impl View for DisplaySet {
    type V = SetModel;

    open spec fn view(&self) -> SetModel {
        SetModel {
            palettes: palettes_of(self.palettes@),
            objects: objects_of(self.objects@),
            compositions: compositions_of(self.compositions@),
        }
    }
}

/// Contents of display sets.
pub open spec fn sets_of(list: Seq<DisplaySet>) -> Seq<SetModel> {
    list.map_values(|s: DisplaySet| s@)
}

// ---------------------------------------------------------------------------
// Palettes
// ---------------------------------------------------------------------------

/// Identifier and version of a palette.
pub open spec fn palette_layout() -> Seq<usize> {
    seq![1, 1]
}

/// The palette entry at `p`.
pub open spec fn entry_at(d: Seq<u8>, p: int) -> PaletteEntry {
    PaletteEntry { index: d[p], y: d[p + 1], cr: d[p + 2], cb: d[p + 3], alpha: d[p + 4] }
}

/// The palette in a segment: as many entries of five bytes as there are.
pub open spec fn palette_in(d: Seq<u8>) -> Result<PaletteModel, CursorError> {
    match fields(d.len(), 0, palette_layout(), 0) {
        Ok(start) => Ok(
            PaletteModel {
                palette_id: d[0],
                entries: Seq::new(((d.len() - 2) / 5) as nat, |k: int| entry_at(d, 2 + 5 * k)),
            },
        ),
        Err(e) => Err(e),
    }
}

fn parse_palette(data: &[u8]) -> (result: Result<Palette, IgError>)
    ensures
        match palette_in(data@) {
            Ok(m) => result matches Ok(p) && p@ == m,
            Err(e) => result == Err::<Palette, IgError>(IgError::eof(e)),
        },
{
    let mut r: Cursor = Cursor::new(data);
    let layout: [usize; 2] = [1, 1];
    proof {
        assert(layout@ =~= palette_layout());
        reveal_with_fuel(fields, 4);
    }
    match r.skip_fields(&layout) {
        Ok(_) => {},
        Err(e) => {
            return Err(IgError::from(e));
        },
    }
    let count: usize = r.remaining() / 5;
    let mut entries: Vec<PaletteEntry> = Vec::new();
    let mut k: usize = 0;
    let mut p: usize = 2;
    while k < count
        invariant
            k <= count,
            p == 2 + 5 * k,
            2 + 5 * count <= data@.len(),
            data@.len() <= usize::MAX,
            entries@ == Seq::new(k as nat, |j: int| entry_at(data@, 2 + 5 * j)),
        decreases count - k,
    {
        entries.push(
            PaletteEntry {
                index: data[p],
                y: data[p + 1],
                cr: data[p + 2],
                cb: data[p + 3],
                alpha: data[p + 4],
            },
        );
        proof {
            assert(entries@ =~= Seq::new((k + 1) as nat, |j: int| entry_at(data@, 2 + 5 * j)));
        }
        k = k + 1;
        p = p + 5;
    }
    Ok(Palette { palette_id: data[0], entries })
}

// ---------------------------------------------------------------------------
// Bitmaps
// ---------------------------------------------------------------------------

/// Identifier, version and place of a bitmap segment.
pub open spec fn object_layout() -> Seq<usize> {
    seq![2, 1, 1]
}

/// Total length, width and height in the first segment of a bitmap.
pub open spec fn size_layout() -> Seq<usize> {
    seq![3, 2, 2]
}

/// Bitmaps without the one of the given identifier.
pub open spec fn without(pending: Seq<ObjectModel>, id: u16) -> Seq<ObjectModel>
    decreases pending.len(),
{
    if pending.len() == 0 {
        seq![]
    } else {
        let before = without(pending.drop_last(), id);
        if pending.last().object_id == id {
            before
        } else {
            before.push(pending.last())
        }
    }
}

/// Bitmaps with the given identifier.
pub open spec fn those_with(pending: Seq<ObjectModel>, id: u16) -> Seq<ObjectModel>
    decreases pending.len(),
{
    if pending.len() == 0 {
        seq![]
    } else {
        let before = those_with(pending.drop_last(), id);
        if pending.last().object_id == id {
            before.push(pending.last())
        } else {
            before
        }
    }
}

/// A bitmap with more encoded pixels.
pub open spec fn longer(o: ObjectModel, chunk: Seq<u8>) -> ObjectModel {
    ObjectModel { rle_data: o.rle_data + chunk, ..o }
}

/// Bitmaps of which those with the given identifier get more pixels.
pub open spec fn continued(pending: Seq<ObjectModel>, id: u16, chunk: Seq<u8>) -> Seq<ObjectModel> {
    pending.map_values(
        |o: ObjectModel|
            if o.object_id == id {
                longer(o, chunk)
            } else {
                o
            },
    )
}

/// No two bitmaps have the same identifier.
pub open spec fn distinct_ids(pending: Seq<ObjectModel>) -> bool {
    forall|i: int, j: int|
        0 <= i < j < pending.len() ==> (#[trigger] pending[i]).object_id != (
        #[trigger] pending[j]).object_id
}

/// Finished bitmaps, and those of which parts are still to come, after a
/// bitmap segment. A first part begins a bitmap anew; a last part completes
/// it; any other part continues it. Parts of a bitmap that was not begun are
/// passed over.
pub open spec fn object_in(
    d: Seq<u8>,
    objects: Seq<ObjectModel>,
    pending: Seq<ObjectModel>,
) -> Result<(Seq<ObjectModel>, Seq<ObjectModel>), CursorError> {
    let id = be16(d, 0);
    match fields(d.len(), 0, object_layout(), 0) {
        Err(e) => Err(e),
        Ok(start) => if d[3] == SEQ_FIRST_AND_LAST || d[3] == SEQ_FIRST {
            match fields(d.len(), start, size_layout(), 0) {
                Err(e) => Err(e),
                Ok(_) => {
                    let o = ObjectModel {
                        object_id: id,
                        width: be16(d, 7),
                        height: be16(d, 9),
                        rle_data: d.skip(11),
                    };
                    if d[3] == SEQ_FIRST {
                        Ok((objects, without(pending, id).push(o)))
                    } else {
                        Ok((objects.push(o), pending))
                    }
                },
            }
        } else if d[3] == SEQ_LAST {
            Ok(
                (
                    objects + continued(those_with(pending, id), id, d.skip(4)),
                    without(pending, id),
                ),
            )
        } else {
            Ok((objects, continued(pending, id, d.skip(4))))
        },
    }
}

/// Removes the bitmap with an identifier. Returns it if there was one.
fn take_pending(pending: &mut Vec<ObjectDefinition>, id: u16) -> (found: Option<ObjectDefinition>)
    requires
        distinct_ids(objects_of(old(pending)@)),
    ensures
        objects_of(final(pending)@) == without(objects_of(old(pending)@), id),
        distinct_ids(objects_of(final(pending)@)),
        forall|i: int|
            0 <= i < final(pending)@.len() ==> (#[trigger] objects_of(
                final(pending)@,
            )[i]).object_id != id,
        those_with(objects_of(old(pending)@), id) == match found {
            Some(o) => seq![o@],
            None => seq![],
        },
        found matches Some(o) ==> o.object_id == id,
{
    let ghost all = objects_of(pending@);
    let mut i: usize = 0;
    while i < pending.len()
        invariant
            i <= pending.len(),
            all == objects_of(old(pending)@),
            pending@ == old(pending)@,
            distinct_ids(all),
            forall|j: int| 0 <= j < i ==> (#[trigger] all[j]).object_id != id,
        decreases pending.len() - i,
    {
        assert(all[i as int] == pending@[i as int]@);
        if pending[i].object_id == id {
            let o: ObjectDefinition = pending.remove(i);
            proof {
                let rest = objects_of(pending@);
                assert(rest =~= all.remove(i as int));
                lemma_without_one(all, id, i as int);
                assert forall|a: int, b: int| 0 <= a < b < rest.len() implies (
                #[trigger] rest[a]).object_id != (#[trigger] rest[b]).object_id by {
                    let a2 = if a < i {
                        a
                    } else {
                        a + 1
                    };
                    let b2 = if b < i {
                        b
                    } else {
                        b + 1
                    };
                    assert(rest[a] == all[a2] && rest[b] == all[b2]);
                }
                assert forall|a: int| 0 <= a < rest.len() implies (
                #[trigger] rest[a]).object_id != id by {
                    let a2 = if a < i {
                        a
                    } else {
                        a + 1
                    };
                    assert(rest[a] == all[a2]);
                    assert(all[i as int].object_id == id);
                }
            }
            return Some(o);
        }
        i = i + 1;
    }
    proof {
        lemma_without_none(all, id);
    }
    None
}

proof fn lemma_without_none(all: Seq<ObjectModel>, id: u16)
    requires
        forall|j: int| 0 <= j < all.len() ==> (#[trigger] all[j]).object_id != id,
    ensures
        without(all, id) == all,
        those_with(all, id) == Seq::<ObjectModel>::empty(),
    decreases all.len(),
{
    if all.len() > 0 {
        assert(all.last().object_id != id);
        assert forall|j: int| 0 <= j < all.drop_last().len() implies (
        #[trigger] all.drop_last()[j]).object_id != id by {
            assert(all.drop_last()[j] == all[j]);
        }
        lemma_without_none(all.drop_last(), id);
        assert(all.drop_last().push(all.last()) =~= all);
    }
}

proof fn lemma_without_one(all: Seq<ObjectModel>, id: u16, i: int)
    requires
        distinct_ids(all),
        0 <= i < all.len(),
        all[i].object_id == id,
    ensures
        without(all, id) == all.remove(i),
        those_with(all, id) == seq![all[i]],
    decreases all.len(),
{
    let init = all.drop_last();
    assert forall|a: int, b: int| 0 <= a < b < init.len() implies (#[trigger] init[a]).object_id
        != (#[trigger] init[b]).object_id by {
        assert(init[a] == all[a] && init[b] == all[b]);
    }
    if i == all.len() - 1 {
        assert forall|j: int| 0 <= j < init.len() implies (#[trigger] init[j]).object_id != id by {
            assert(init[j] == all[j]);
        }
        lemma_without_none(init, id);
        assert(all.remove(i) =~= init);
        assert(Seq::<ObjectModel>::empty().push(all[i]) =~= seq![all[i]]);
    } else {
        assert(all.last().object_id != all[i].object_id);
        assert(init[i] == all[i]);
        lemma_without_one(init, id, i);
        assert(init.remove(i).push(all.last()) =~= all.remove(i));
    }
}

/// Parses a bitmap segment.
fn parse_object_segment(
    data: &[u8],
    pending: &mut Vec<ObjectDefinition>,
    objects: &mut Vec<ObjectDefinition>,
) -> (result: Result<(), IgError>)
    requires
        distinct_ids(objects_of(old(pending)@)),
    ensures
        match object_in(data@, objects_of(old(objects)@), objects_of(old(pending)@)) {
            Ok((done, open)) => result is Ok && objects_of(final(objects)@) == done && objects_of(
                final(pending)@,
            ) == open,
            Err(e) => result == Err::<(), IgError>(IgError::eof(e)),
        },
        distinct_ids(objects_of(final(pending)@)),
{
    let mut r: Cursor = Cursor::new(data);
    let layout: [usize; 3] = [2, 1, 1];
    let size: [usize; 3] = [3, 2, 2];
    proof {
        assert(layout@ =~= object_layout());
        assert(size@ =~= size_layout());
        reveal_with_fuel(fields, 5);
    }
    match r.skip_fields(&layout) {
        Ok(_) => {},
        Err(e) => {
            return Err(IgError::from(e));
        },
    }
    let id: u16 = get_u16(data, 0);
    let flag: u8 = data[3];
    if flag == SEQ_FIRST_AND_LAST || flag == SEQ_FIRST {
        match r.skip_fields(&size) {
            Ok(_) => {},
            Err(e) => {
                return Err(IgError::from(e));
            },
        }
        let rle_data: Vec<u8> = vstd::slice::slice_to_vec(
            vstd::slice::slice_subrange(data, 11, data.len()),
        );
        let o: ObjectDefinition = ObjectDefinition {
            object_id: id,
            width: get_u16(data, 7),
            height: get_u16(data, 9),
            rle_data,
        };
        proof {
            assert(rle_data@ =~= data@.skip(11));
        }
        if flag == SEQ_FIRST {
            take_pending(pending, id);
            let ghost before = objects_of(pending@);
            pending.push(o);
            proof {
                assert(objects_of(pending@) =~= before.push(o@));
                let now = objects_of(pending@);
                assert forall|a: int, b: int| 0 <= a < b < now.len() implies (
                #[trigger] now[a]).object_id != (#[trigger] now[b]).object_id by {
                    assert(now[a] == before[a]);
                    if b < before.len() {
                        assert(now[b] == before[b]);
                    }
                }
            }
        } else {
            let ghost before = objects_of(objects@);
            objects.push(o);
            proof {
                assert(objects_of(objects@) =~= before.push(o@));
            }
        }
        return Ok(());
    }
    let chunk: Vec<u8> = vstd::slice::slice_to_vec(
        vstd::slice::slice_subrange(data, 4, data.len()),
    );
    proof {
        assert(chunk@ =~= data@.skip(4));
    }
    if flag == SEQ_LAST {
        let ghost before = objects_of(objects@);
        match take_pending(pending, id) {
            Some(found) => {
                let mut o: ObjectDefinition = found;
                let ghost begun = o@;
                extend(&mut o.rle_data, &chunk);
                objects.push(o);
                proof {
                    assert(continued(seq![begun], id, chunk@) =~= seq![longer(begun, chunk@)]);
                    assert(objects_of(objects@) =~= before + seq![longer(begun, chunk@)]);
                }
            },
            None => {
                proof {
                    assert(continued(seq![], id, chunk@) =~= seq![]);
                    assert(before + Seq::<ObjectModel>::empty() =~= before);
                }
            },
        }
    } else {
        let ghost all = objects_of(pending@);
        let mut i: usize = 0;
        while i < pending.len()
            invariant
                i <= pending.len(),
                pending@.len() == all.len(),
                all == objects_of(old(pending)@),
                forall|j: int|
                    0 <= j < i ==> (#[trigger] objects_of(pending@)[j]) == continued(
                        all,
                        id,
                        chunk@,
                    )[j],
                forall|j: int| i <= j < all.len() ==> #[trigger] objects_of(pending@)[j] == all[j],
            decreases pending.len() - i,
        {
            let ghost before = pending@;
            proof {
                assert(objects_of(pending@)[i as int] == all[i as int]);
            }
            if pending[i].object_id == id {
                extend(&mut pending[i].rle_data, &chunk);
            }
            proof {
                let now = objects_of(pending@);
                assert(now[i as int] == continued(all, id, chunk@)[i as int]);
                assert forall|j: int| 0 <= j < i implies (#[trigger] now[j]) == continued(
                    all,
                    id,
                    chunk@,
                )[j] by {
                    assert(objects_of(before)[j] == continued(all, id, chunk@)[j]);
                }
                assert forall|j: int| i + 1 <= j < all.len() implies #[trigger] now[j]
                    == all[j] by {
                    assert(objects_of(before)[j] == all[j]);
                }
            }
            i = i + 1;
        }
        proof {
            assert(objects_of(pending@) =~= continued(all, id, chunk@));
            let now = objects_of(pending@);
            assert forall|a: int, b: int| 0 <= a < b < now.len() implies (
            #[trigger] now[a]).object_id != (#[trigger] now[b]).object_id by {
                assert(now[a].object_id == all[a].object_id);
                assert(now[b].object_id == all[b].object_id);
            }
        }
    }
    Ok(())
}

/// Appends bytes.
fn extend(data: &mut Vec<u8>, chunk: &Vec<u8>)
    ensures
        final(data)@ == old(data)@ + chunk@,
{
    let mut copy: Vec<u8> = vstd::slice::slice_to_vec(chunk.as_slice());
    data.append(&mut copy);
}

// ---------------------------------------------------------------------------
// Pages
// ---------------------------------------------------------------------------

/// Fields of a navigation command: three words.
pub open spec fn command_layout() -> Seq<usize> {
    seq![4, 4, 4]
}

/// Navigation commands. The first byte holds group and sub-group; 0x21 plays
/// the playlist in the low half of the third word.
pub open spec fn command_parser(d: Seq<u8>) -> spec_fn(int) -> Parsed<NavigationCommand> {
    |p: int|
        match fields(d.len(), p, command_layout(), 0) {
            Ok(end) => Ok(
                (
                    if d[p] == 0x21 {
                        NavigationCommand::PlayPl { playlist: be16(d, p + 10) }
                    } else {
                        NavigationCommand::Other { opcode: be32(d, p) }
                    },
                    end,
                ),
            ),
            Err(e) => Err(e),
        }
}

/// Fields of a button before its commands: identifier, numeric value, flag,
/// position, neighbours, the objects of the normal, selected and activated
/// states with their flags and sounds, and the number of commands.
pub open spec fn button_layout() -> Seq<usize> {
    seq![2, 2, 1, 2, 2, 8, 2, 2, 1, 1, 2, 2, 1, 1, 2, 2, 2]
}

/// Buttons.
pub open spec fn button_parser(d: Seq<u8>) -> spec_fn(int) -> Parsed<ButtonModel> {
    |p: int|
        match fields(d.len(), p, button_layout(), 0) {
            Ok(start) => match items(command_parser(d), start, be16(d, p + 33) as int) {
                Ok((commands, end)) => Ok(
                    (
                        ButtonModel {
                            button_id: be16(d, p),
                            x: be16(d, p + 5),
                            y: be16(d, p + 7),
                            normal_object_id: be16(d, p + 17),
                            selected_object_id: be16(d, p + 23),
                            commands,
                        },
                        end,
                    ),
                ),
                Err(e) => Err(e),
            },
            Err(e) => Err(e),
        }
}

/// Default button and number of buttons of an overlap group.
pub open spec fn group_layout() -> Seq<usize> {
    seq![2, 1]
}

/// Overlap groups: a header, and as many buttons as it says.
pub open spec fn group_parser(d: Seq<u8>) -> spec_fn(int) -> Parsed<Seq<ButtonModel>> {
    |p: int|
        match fields(d.len(), p, group_layout(), 0) {
            Ok(start) => items(button_parser(d), start, d[p + 2] as int),
            Err(e) => Err(e),
        }
}

/// Object, window and flags of a composition object.
pub open spec fn placed_layout() -> Seq<usize> {
    seq![3, 1]
}

/// Composition objects. The top bit of the flags says that a crop rectangle
/// follows the position.
pub open spec fn placed_parser(d: Seq<u8>) -> spec_fn(int) -> Parsed<()> {
    |p: int|
        match fields(d.len(), p, placed_layout(), 0) {
            Ok(start) => {
                let rest: Seq<usize> = if d[p + 3] >= 0x80 {
                    seq![4, 8]
                } else {
                    seq![4]
                };
                match fields(d.len(), start, rest, 0) {
                    Ok(end) => Ok(((), end)),
                    Err(e) => Err(e),
                }
            },
            Err(e) => Err(e),
        }
}

/// Duration, palette and number of objects of an effect.
pub open spec fn effect_layout() -> Seq<usize> {
    seq![3, 1, 1]
}

/// The position after a list.
pub open spec fn ended<T>(list: Parsed<T>) -> Parsed<()> {
    match list {
        Ok((_, end)) => Ok(((), end)),
        Err(e) => Err(e),
    }
}

/// Effects.
pub open spec fn effect_parser(d: Seq<u8>) -> spec_fn(int) -> Parsed<()> {
    |p: int|
        match fields(d.len(), p, effect_layout(), 0) {
            Ok(start) => ended(items(placed_parser(d), start, d[p + 4] as int)),
            Err(e) => Err(e),
        }
}

/// Windows of nine bytes.
pub open spec fn window_parser(d: Seq<u8>) -> spec_fn(int) -> Parsed<()> {
    |p: int|
        match fields(d.len(), p, seq![9], 0) {
            Ok(end) => Ok(((), end)),
            Err(e) => Err(e),
        }
}

/// A counted list.
pub open spec fn counted(d: Seq<u8>, item: spec_fn(int) -> Parsed<()>, p: int) -> Parsed<()> {
    match fields(d.len(), p, seq![1], 0) {
        Ok(start) => ended(items(item, start, d[p] as int)),
        Err(e) => Err(e),
    }
}

/// An effect sequence: windows, then effects.
pub open spec fn effects_at(d: Seq<u8>, p: int) -> Parsed<()> {
    match counted(d, window_parser(d), p) {
        Ok((_, q)) => counted(d, effect_parser(d), q),
        Err(e) => Err(e),
    }
}

/// Identifier, version and operation mask of a page.
pub open spec fn page_layout() -> Seq<usize> {
    seq![1, 1, 8]
}

/// Frame rate, default buttons, palette and number of groups of a page.
pub open spec fn page_tail_layout() -> Seq<usize> {
    seq![1, 4, 1, 1]
}

/// A page: a header, in and out effects, and overlap groups.
pub open spec fn page_at(d: Seq<u8>, p: int) -> Parsed<PageModel> {
    match fields(d.len(), p, page_layout(), 0) {
        Err(e) => Err(e),
        Ok(p1) => match effects_at(d, p1) {
            Err(e) => Err(e),
            Ok((_, p2)) => match effects_at(d, p2) {
                Err(e) => Err(e),
                Ok((_, p3)) => match fields(d.len(), p3, page_tail_layout(), 0) {
                    Err(e) => Err(e),
                    Ok(p4) => match items(group_parser(d), p4, d[p3 + 6] as int) {
                        Err(e) => Err(e),
                        Ok((groups, end)) => Ok(
                            (PageModel { page_id: d[p], buttons: concat(groups) }, end),
                        ),
                    },
                },
            },
        },
    }
}

/// At most `n` pages, up to the end of the data or the first that cannot be
/// read.
pub open spec fn pages_at(d: Seq<u8>, p: int, n: int) -> Seq<PageModel>
    decreases n,
{
    if n <= 0 || left(d.len(), p) == 0 {
        seq![]
    } else {
        match page_at(d, p) {
            Ok((page, q)) => seq![page] + pages_at(d, q, n - 1),
            Err(_) => seq![],
        }
    }
}

/// Size, frame rate, number, state, sequence, length and model of a
/// composition.
pub open spec fn composition_layout() -> Seq<usize> {
    seq![2, 2, 1, 2, 1, 1, 3, 1]
}

/// Timeouts of a composition that is not part of the video stream.
pub open spec fn timeout_layout() -> Seq<usize> {
    seq![1, 5, 5]
}

/// User timeout and number of pages.
pub open spec fn pages_layout() -> Seq<usize> {
    seq![3, 1]
}

/// The composition in a segment. The timeouts are there if the top bit of the
/// model is clear.
pub open spec fn composition_in(d: Seq<u8>) -> Result<CompositionModel, CursorError> {
    match fields(d.len(), 0, composition_layout(), 0) {
        Err(e) => Err(e),
        Ok(p1) => {
            let timed = if d[12] < 0x80 {
                fields(d.len(), p1, timeout_layout(), 0)
            } else {
                Ok(p1)
            };
            match timed {
                Err(e) => Err(e),
                Ok(p2) => match fields(d.len(), p2, pages_layout(), 0) {
                    Err(e) => Err(e),
                    Ok(p3) => Ok(
                        CompositionModel {
                            width: be16(d, 0),
                            height: be16(d, 2),
                            pages: pages_at(d, p3, d[p2 + 3] as int),
                        },
                    ),
                },
            }
        },
    }
}

fn parse_navigation_command(r: &mut Cursor<'_>) -> (result: Result<NavigationCommand, IgError>)
    requires
        old(r).pos <= old(r).bytes().len(),
    ensures
        final(r).bytes() == old(r).bytes(),
        final(r).pos <= final(r).bytes().len(),
        match command_parser(old(r).bytes())(old(r).pos as int) {
            Ok((c, end)) => result == Ok::<NavigationCommand, IgError>(c) && final(r).pos == end,
            Err(e) => result == Err::<NavigationCommand, IgError>(IgError::eof(e)),
        },
{
    let layout: [usize; 3] = [4, 4, 4];
    proof {
        assert(layout@ =~= command_layout());
        reveal_with_fuel(fields, 5);
    }
    match r.skip_fields(&layout) {
        Ok(p) => if r.data[p] == 0x21 {
            Ok(NavigationCommand::PlayPl { playlist: get_u16(r.data, p + 10) })
        } else {
            Ok(NavigationCommand::Other { opcode: get_u32(r.data, p) })
        },
        Err(e) => Err(IgError::from(e)),
    }
}

fn parse_button(r: &mut Cursor<'_>) -> (result: Result<Button, IgError>)
    requires
        old(r).pos <= old(r).bytes().len(),
    ensures
        final(r).bytes() == old(r).bytes(),
        final(r).pos <= final(r).bytes().len(),
        match button_parser(old(r).bytes())(old(r).pos as int) {
            Ok((b, end)) => result matches Ok(button) && button@ == b && final(r).pos == end,
            Err(e) => result == Err::<Button, IgError>(IgError::eof(e)),
        },
{
    let ghost d = r.bytes();
    let layout: [usize; 17] = [2, 2, 1, 2, 2, 8, 2, 2, 1, 1, 2, 2, 1, 1, 2, 2, 2];
    proof {
        assert(layout@ =~= button_layout());
        reveal_with_fuel(fields, 19);
    }
    let p: usize = match r.skip_fields(&layout) {
        Ok(p) => p,
        Err(e) => {
            return Err(IgError::from(e));
        },
    };
    let count: u16 = get_u16(r.data, p + 33);
    let ghost start = r.pos as int;
    let mut commands: Vec<NavigationCommand> = Vec::new();
    let mut i: u16 = 0;
    while i < count
        invariant
            i <= count,
            d == old(r).bytes(),
            r.bytes() == d,
            r.pos <= d.len(),
            items(command_parser(d), start, i as int) == Ok::<
                (Seq<NavigationCommand>, int),
                CursorError,
            >((commands@, r.pos as int)),
            p == old(r).pos,
            fields(d.len(), p as int, button_layout(), 0) == Ok::<int, CursorError>(start),
            count == be16(d, p + 33),
        decreases count - i,
    {
        match parse_navigation_command(r) {
            Ok(c) => {
                commands.push(c);
            },
            Err(e) => {
                proof {
                    lemma_items_err(command_parser(d), start, i + 1, count as int);
                }
                return Err(e);
            },
        }
        i = i + 1;
    }
    proof {
        reveal_with_fuel(fields, 19);
    }
    Ok(
        Button {
            button_id: get_u16(r.data, p),
            x: get_u16(r.data, p + 5),
            y: get_u16(r.data, p + 7),
            normal_object_id: get_u16(r.data, p + 17),
            selected_object_id: get_u16(r.data, p + 23),
            commands,
        },
    )
}

fn parse_bog(r: &mut Cursor<'_>) -> (result: Result<Vec<Button>, IgError>)
    requires
        old(r).pos <= old(r).bytes().len(),
    ensures
        final(r).bytes() == old(r).bytes(),
        final(r).pos <= final(r).bytes().len(),
        match group_parser(old(r).bytes())(old(r).pos as int) {
            Ok((group, end)) => result matches Ok(buttons) && buttons_of(buttons@) == group
                && final(r).pos == end,
            Err(e) => result == Err::<Vec<Button>, IgError>(IgError::eof(e)),
        },
{
    let ghost d = r.bytes();
    let layout: [usize; 2] = [2, 1];
    proof {
        assert(layout@ =~= group_layout());
        reveal_with_fuel(fields, 4);
    }
    let p: usize = match r.skip_fields(&layout) {
        Ok(p) => p,
        Err(e) => {
            return Err(IgError::from(e));
        },
    };
    let count: u8 = r.data[p + 2];
    let ghost start = r.pos as int;
    let mut buttons: Vec<Button> = Vec::new();
    proof {
        assert(buttons_of(buttons@) =~= seq![]);
    }
    let mut i: u8 = 0;
    while i < count
        invariant
            i <= count,
            d == old(r).bytes(),
            r.bytes() == d,
            r.pos <= d.len(),
            items(button_parser(d), start, i as int) == Ok::<(Seq<ButtonModel>, int), CursorError>(
                (buttons_of(buttons@), r.pos as int),
            ),
            group_parser(d)(old(r).pos as int) == items(button_parser(d), start, count as int),
        decreases count - i,
    {
        let ghost before = buttons_of(buttons@);
        match parse_button(r) {
            Ok(b) => {
                buttons.push(b);
                proof {
                    assert(buttons_of(buttons@) =~= before.push(b@));
                }
            },
            Err(e) => {
                proof {
                    lemma_items_err(button_parser(d), start, i + 1, count as int);
                }
                return Err(e);
            },
        }
        i = i + 1;
    }
    Ok(buttons)
}

fn skip_composition_object(r: &mut Cursor<'_>) -> (result: Result<(), IgError>)
    requires
        old(r).pos <= old(r).bytes().len(),
    ensures
        final(r).bytes() == old(r).bytes(),
        final(r).pos <= final(r).bytes().len(),
        match placed_parser(old(r).bytes())(old(r).pos as int) {
            Ok((_, end)) => result is Ok && final(r).pos == end,
            Err(e) => result == Err::<(), IgError>(IgError::eof(e)),
        },
{
    let layout: [usize; 2] = [3, 1];
    let plain: [usize; 1] = [4];
    let cropped: [usize; 2] = [4, 8];
    proof {
        assert(layout@ =~= placed_layout());
        assert(plain@ =~= seq![4usize]);
        assert(cropped@ =~= seq![4usize, 8usize]);
        reveal_with_fuel(fields, 4);
    }
    let p: usize = match r.skip_fields(&layout) {
        Ok(p) => p,
        Err(e) => {
            return Err(IgError::from(e));
        },
    };
    let skipped: Result<usize, CursorError> = if r.data[p + 3] >= 0x80 {
        r.skip_fields(&cropped)
    } else {
        r.skip_fields(&plain)
    };
    match skipped {
        Ok(_) => Ok(()),
        Err(e) => Err(IgError::from(e)),
    }
}

fn skip_effect(r: &mut Cursor<'_>) -> (result: Result<(), IgError>)
    requires
        old(r).pos <= old(r).bytes().len(),
    ensures
        final(r).bytes() == old(r).bytes(),
        final(r).pos <= final(r).bytes().len(),
        match effect_parser(old(r).bytes())(old(r).pos as int) {
            Ok((_, end)) => result is Ok && final(r).pos == end,
            Err(e) => result == Err::<(), IgError>(IgError::eof(e)),
        },
{
    let ghost d = r.bytes();
    let layout: [usize; 3] = [3, 1, 1];
    proof {
        assert(layout@ =~= effect_layout());
        reveal_with_fuel(fields, 5);
    }
    let p: usize = match r.skip_fields(&layout) {
        Ok(p) => p,
        Err(e) => {
            return Err(IgError::from(e));
        },
    };
    let count: u8 = r.data[p + 4];
    let ghost start = r.pos as int;
    let ghost item = placed_parser(d);
    let mut i: u8 = 0;
    while i < count
        invariant
            i <= count,
            d == old(r).bytes(),
            item == placed_parser(d),
            r.bytes() == d,
            r.pos <= d.len(),
            ended(items(item, start, i as int)) == Ok::<((), int), CursorError>(((), r.pos as int)),
            effect_parser(d)(old(r).pos as int) == ended(items(item, start, count as int)),
        decreases count - i,
    {
        match skip_composition_object(r) {
            Ok(()) => {},
            Err(e) => {
                proof {
                    lemma_items_err(item, start, i + 1, count as int);
                }
                return Err(e);
            },
        }
        i = i + 1;
    }
    Ok(())
}

fn skip_effect_sequence(r: &mut Cursor<'_>) -> (result: Result<(), IgError>)
    requires
        old(r).pos <= old(r).bytes().len(),
    ensures
        final(r).bytes() == old(r).bytes(),
        final(r).pos <= final(r).bytes().len(),
        match effects_at(old(r).bytes(), old(r).pos as int) {
            Ok((_, end)) => result is Ok && final(r).pos == end,
            Err(e) => result == Err::<(), IgError>(IgError::eof(e)),
        },
{
    let ghost d = r.bytes();
    let count_layout: [usize; 1] = [1];
    let window_layout: [usize; 1] = [9];
    proof {
        assert(count_layout@ =~= seq![1usize]);
        assert(window_layout@ =~= seq![9usize]);
        reveal_with_fuel(fields, 3);
    }
    let p: usize = match r.skip_fields(&count_layout) {
        Ok(p) => p,
        Err(e) => {
            return Err(IgError::from(e));
        },
    };
    let windows: u8 = r.data[p];
    let ghost start = r.pos as int;
    let ghost window = window_parser(d);
    let mut i: u8 = 0;
    while i < windows
        invariant
            i <= windows,
            d == old(r).bytes(),
            window == window_parser(d),
            window_layout@ == seq![9usize],
            r.bytes() == d,
            r.pos <= d.len(),
            ended(items(window, start, i as int)) == Ok::<((), int), CursorError>(
                ((), r.pos as int),
            ),
            counted(d, window, old(r).pos as int) == ended(items(window, start, windows as int)),
        decreases windows - i,
    {
        match r.skip_fields(&window_layout) {
            Ok(_) => {},
            Err(e) => {
                proof {
                    lemma_items_err(window, start, i + 1, windows as int);
                }
                return Err(IgError::from(e));
            },
        }
        i = i + 1;
    }
    let ghost middle = r.pos as int;
    proof {
        reveal_with_fuel(fields, 3);
    }
    let q: usize = match r.skip_fields(&count_layout) {
        Ok(q) => q,
        Err(e) => {
            return Err(IgError::from(e));
        },
    };
    let effects: u8 = r.data[q];
    let ghost first = r.pos as int;
    let ghost effect = effect_parser(d);
    let mut k: u8 = 0;
    while k < effects
        invariant
            k <= effects,
            d == old(r).bytes(),
            effect == effect_parser(d),
            r.bytes() == d,
            r.pos <= d.len(),
            ended(items(effect, first, k as int)) == Ok::<((), int), CursorError>(
                ((), r.pos as int),
            ),
            effects_at(d, old(r).pos as int) == ended(items(effect, first, effects as int)),
        decreases effects - k,
    {
        match skip_effect(r) {
            Ok(()) => {},
            Err(e) => {
                proof {
                    lemma_items_err(effect, first, k + 1, effects as int);
                }
                return Err(e);
            },
        }
        k = k + 1;
    }
    Ok(())
}

fn parse_page(r: &mut Cursor<'_>) -> (result: Result<Page, IgError>)
    requires
        old(r).pos <= old(r).bytes().len(),
    ensures
        final(r).bytes() == old(r).bytes(),
        final(r).pos <= final(r).bytes().len(),
        match page_at(old(r).bytes(), old(r).pos as int) {
            Ok((m, end)) => result matches Ok(page) && page@ == m && final(r).pos == end,
            Err(e) => result == Err::<Page, IgError>(IgError::eof(e)),
        },
{
    let ghost d = r.bytes();
    let layout: [usize; 3] = [1, 1, 8];
    let tail: [usize; 4] = [1, 4, 1, 1];
    proof {
        assert(layout@ =~= page_layout());
        assert(tail@ =~= page_tail_layout());
        reveal_with_fuel(fields, 6);
    }
    let p: usize = match r.skip_fields(&layout) {
        Ok(p) => p,
        Err(e) => {
            return Err(IgError::from(e));
        },
    };
    let page_id: u8 = r.data[p];
    match skip_effect_sequence(r) {
        Ok(()) => {},
        Err(e) => {
            return Err(e);
        },
    }
    match skip_effect_sequence(r) {
        Ok(()) => {},
        Err(e) => {
            return Err(e);
        },
    }
    let q: usize = match r.skip_fields(&tail) {
        Ok(q) => q,
        Err(e) => {
            return Err(IgError::from(e));
        },
    };
    let count: u8 = r.data[q + 6];
    let ghost start = r.pos as int;
    let ghost item = group_parser(d);
    let ghost mut groups: Seq<Seq<ButtonModel>> = seq![];
    let mut buttons: Vec<Button> = Vec::new();
    proof {
        assert(buttons_of(buttons@) =~= concat(groups));
    }
    let mut i: u8 = 0;
    while i < count
        invariant
            i <= count,
            d == old(r).bytes(),
            item == group_parser(d),
            r.bytes() == d,
            r.pos <= d.len(),
            page_id == d[old(r).pos as int],
            items(item, start, i as int) == Ok::<(Seq<Seq<ButtonModel>>, int), CursorError>(
                (groups, r.pos as int),
            ),
            buttons_of(buttons@) == concat(groups),
            page_at(d, old(r).pos as int) == match items(item, start, count as int) {
                Err(e) => Err::<(PageModel, int), CursorError>(e),
                Ok((all, end)) => Ok((PageModel { page_id, buttons: concat(all) }, end)),
            },
        decreases count - i,
    {
        match parse_bog(r) {
            Ok(group) => {
                let ghost before = buttons_of(buttons@);
                let ghost list = buttons_of(group@);
                let mut more: Vec<Button> = group;
                buttons.append(&mut more);
                proof {
                    assert(buttons_of(buttons@) =~= before + list);
                    assert(groups.push(list).drop_last() =~= groups);
                    groups = groups.push(list);
                }
            },
            Err(e) => {
                proof {
                    lemma_items_err(item, start, i + 1, count as int);
                }
                return Err(e);
            },
        }
        i = i + 1;
    }
    Ok(Page { page_id, buttons })
}

fn parse_interactive_composition(data: &[u8]) -> (result: Result<InteractiveComposition, IgError>)
    ensures
        match composition_in(data@) {
            Ok(m) => result matches Ok(c) && c@ == m,
            Err(e) => result == Err::<InteractiveComposition, IgError>(IgError::eof(e)),
        },
{
    let mut r: Cursor = Cursor::new(data);
    let layout: [usize; 8] = [2, 2, 1, 2, 1, 1, 3, 1];
    let timeouts: [usize; 3] = [1, 5, 5];
    let tail: [usize; 2] = [3, 1];
    proof {
        assert(layout@ =~= composition_layout());
        assert(timeouts@ =~= timeout_layout());
        assert(tail@ =~= pages_layout());
        reveal_with_fuel(fields, 10);
    }
    match r.skip_fields(&layout) {
        Ok(_) => {},
        Err(e) => {
            return Err(IgError::from(e));
        },
    }
    if data[12] < 0x80 {
        match r.skip_fields(&timeouts) {
            Ok(_) => {},
            Err(e) => {
                return Err(IgError::from(e));
            },
        }
    }
    let q: usize = match r.skip_fields(&tail) {
        Ok(q) => q,
        Err(e) => {
            return Err(IgError::from(e));
        },
    };
    let count: u8 = data[q + 3];
    let ghost all = pages_at(data@, r.pos as int, count as int);
    let mut pages: Vec<Page> = Vec::new();
    proof {
        assert(pages_of(pages@) + all =~= all);
    }
    let mut i: u8 = 0;
    let mut more: bool = true;
    while more && i < count
        invariant
            i <= count,
            r.bytes() == data@,
            r.pos <= data@.len(),
            more ==> pages_of(pages@) + pages_at(data@, r.pos as int, count - i) == all,
            !more ==> pages_of(pages@) == all,
        decreases count - i,
    {
        let ghost rest = pages_at(data@, r.pos as int, count - i);
        let ghost before = pages_of(pages@);
        if r.remaining() == 0 {
            more = false;
            proof {
                assert(before + Seq::<PageModel>::empty() =~= before);
            }
        } else {
            match parse_page(&mut r) {
                Ok(page) => {
                    pages.push(page);
                    proof {
                        assert(pages_of(pages@) =~= before.push(page@));
                        assert(before + rest =~= before.push(page@) + rest.skip(1));
                        assert(rest.skip(1) =~= pages_at(data@, r.pos as int, count - i - 1));
                    }
                },
                Err(_) => {
                    more = false;
                    proof {
                        assert(before + Seq::<PageModel>::empty() =~= before);
                    }
                },
            }
        }
        i = i + 1;
    }
    proof {
        assert(pages_of(pages@) + Seq::<PageModel>::empty() =~= pages_of(pages@));
    }
    Ok(InteractiveComposition { width: get_u16(data, 0), height: get_u16(data, 2), pages })
}

// ---------------------------------------------------------------------------
// Streams
// ---------------------------------------------------------------------------

/// State between two segments.
#[verifier::ext_equal]
pub struct StreamModel {
    /// Display sets that are complete.
    pub sets: Seq<SetModel>,
    /// What the current display set holds so far.
    pub current: SetModel,
    /// Bitmaps of which parts are still to come, in the order begun.
    pub pending: Seq<ObjectModel>,
}

/// A display set that holds nothing.
pub open spec fn empty_set() -> SetModel {
    SetModel { palettes: seq![], objects: seq![], compositions: seq![] }
}

impl StreamModel {
    /// The display sets with the current one, whose unfinished bitmaps are
    /// taken as they are.
    pub open spec fn closed_sets(self) -> Seq<SetModel> {
        self.sets.push(
            SetModel { objects: self.current.objects + self.pending, ..self.current },
        )
    }

    /// Whether the current display set holds anything finished.
    pub open spec fn has_content(self) -> bool {
        self.current.palettes.len() > 0 || self.current.objects.len() > 0
            || self.current.compositions.len() > 0
    }

    /// The state after a segment. Segments of unknown type are passed over.
    pub open spec fn after(self, kind: u8, body: Seq<u8>) -> Result<StreamModel, CursorError> {
        if kind == SEG_PALETTE {
            match palette_in(body) {
                Ok(p) => Ok(
                    StreamModel {
                        current: SetModel {
                            palettes: self.current.palettes.push(p),
                            ..self.current
                        },
                        ..self
                    },
                ),
                Err(e) => Err(e),
            }
        } else if kind == SEG_OBJECT {
            match object_in(body, self.current.objects, self.pending) {
                Ok((objects, pending)) => Ok(
                    StreamModel { current: SetModel { objects, ..self.current }, pending, ..self },
                ),
                Err(e) => Err(e),
            }
        } else if kind == SEG_COMPOSITION {
            match composition_in(body) {
                Ok(c) => Ok(
                    StreamModel {
                        current: SetModel {
                            compositions: self.current.compositions.push(c),
                            ..self.current
                        },
                        ..self
                    },
                ),
                Err(e) => Err(e),
            }
        } else if kind == SEG_END_OF_DISPLAY {
            Ok(
                StreamModel {
                    sets: self.closed_sets(),
                    current: empty_set(),
                    pending: seq![],
                },
            )
        } else {
            Ok(self)
        }
    }

    /// The state after all segments from `p` on: type, length and body of each.
    /// One whose length or body is cut off is an error.
    pub open spec fn after_all(self, d: Seq<u8>, p: int) -> Result<StreamModel, CursorError>
        decreases d.len() - p,
    {
        if left(d.len(), p) == 0 {
            Ok(self)
        } else if left(d.len(), p) < 3 {
            Err(short(d.len(), p + 1, 2))
        } else {
            let size = be16(d, p + 1) as int;
            if left(d.len(), p + 3) < size {
                Err(short(d.len(), p + 3, size))
            } else {
                match self.after(d[p], d.subrange(p + 3, p + 3 + size)) {
                    Ok(next) => next.after_all(d, p + 3 + size),
                    Err(e) => Err(e),
                }
            }
        }
    }
}

/// The display sets of a stream. One that is not closed counts if it holds
/// anything finished.
pub open spec fn stream_sets(d: Seq<u8>) -> Result<Seq<SetModel>, CursorError> {
    let start = StreamModel { sets: seq![], current: empty_set(), pending: seq![] };
    match start.after_all(d, 0) {
        Ok(end) => Ok(
            if end.has_content() {
                end.closed_sets()
            } else {
                end.sets
            },
        ),
        Err(e) => Err(e),
    }
}

/// State of a parse.
struct Assembly {
    sets: Vec<DisplaySet>,
    palettes: Vec<Palette>,
    objects: Vec<ObjectDefinition>,
    compositions: Vec<InteractiveComposition>,
    pending: Vec<ObjectDefinition>,
}

impl View for Assembly {
    type V = StreamModel;

    closed spec fn view(&self) -> StreamModel {
        StreamModel {
            sets: sets_of(self.sets@),
            current: SetModel {
                palettes: palettes_of(self.palettes@),
                objects: objects_of(self.objects@),
                compositions: compositions_of(self.compositions@),
            },
            pending: objects_of(self.pending@),
        }
    }
}

impl Assembly {
    fn new() -> (a: Assembly)
        ensures
            a@ == (StreamModel { sets: seq![], current: empty_set(), pending: seq![] }),
    {
        let a: Assembly = Assembly {
            sets: Vec::new(),
            palettes: Vec::new(),
            objects: Vec::new(),
            compositions: Vec::new(),
            pending: Vec::new(),
        };
        proof {
            assert(a@.sets =~= seq![]);
            assert(a@.current =~= empty_set());
            assert(a@.pending =~= seq![]);
        }
        a
    }

    /// Closes the current display set.
    fn close(&mut self)
        ensures
            final(self)@ == (StreamModel {
                sets: old(self)@.closed_sets(),
                current: empty_set(),
                pending: seq![],
            }),
    {
        let ghost before = objects_of(self.objects@);
        let ghost open = objects_of(self.pending@);
        self.objects.append(&mut self.pending);
        proof {
            assert(objects_of(self.objects@) =~= before + open);
        }
        let mut palettes: Vec<Palette> = Vec::new();
        palettes.append(&mut self.palettes);
        let mut objects: Vec<ObjectDefinition> = Vec::new();
        objects.append(&mut self.objects);
        let mut compositions: Vec<InteractiveComposition> = Vec::new();
        compositions.append(&mut self.compositions);
        proof {
            assert(palettes@ =~= old(self).palettes@);
            assert(objects_of(objects@) =~= before + open);
            assert(compositions@ =~= old(self).compositions@);
        }
        let set: DisplaySet = DisplaySet { palettes, objects, compositions };
        self.sets.push(set);
        proof {
            assert(self@.sets =~= old(self)@.closed_sets());
            assert(self@.current =~= empty_set());
            assert(self@.pending =~= seq![]);
        }
    }

    fn has_content(&self) -> (yes: bool)
        ensures
            yes == self@.has_content(),
    {
        !self.palettes.is_empty() || !self.objects.is_empty() || !self.compositions.is_empty()
    }

    fn segment(&mut self, kind: u8, body: &[u8]) -> (result: Result<(), IgError>)
        requires
            distinct_ids(old(self)@.pending),
        ensures
            distinct_ids(final(self)@.pending),
            match old(self)@.after(kind, body@) {
                Ok(next) => result is Ok && final(self)@ == next,
                Err(e) => result == Err::<(), IgError>(IgError::eof(e)),
            },
    {
        if kind == SEG_PALETTE {
            match parse_palette(body) {
                Ok(p) => {
                    self.palettes.push(p);
                    proof {
                        assert(self@.current.palettes =~= old(self)@.current.palettes.push(p@));
                    }
                },
                Err(e) => {
                    return Err(e);
                },
            }
        } else if kind == SEG_OBJECT {
            match parse_object_segment(body, &mut self.pending, &mut self.objects) {
                Ok(()) => {},
                Err(e) => {
                    return Err(e);
                },
            }
        } else if kind == SEG_COMPOSITION {
            match parse_interactive_composition(body) {
                Ok(c) => {
                    self.compositions.push(c);
                    proof {
                        assert(self@.current.compositions =~= old(
                            self,
                        )@.current.compositions.push(c@));
                    }
                },
                Err(e) => {
                    return Err(e);
                },
            }
        } else if kind == SEG_END_OF_DISPLAY {
            self.close();
        }
        Ok(())
    }
}

/// Parses an interactive graphics stream.
pub fn parse(data: &[u8]) -> (result: Result<IgStream, IgError>)
    ensures
        match stream_sets(data@) {
            Ok(sets) => result matches Ok(stream) && sets_of(stream.display_sets@) == sets,
            Err(e) => result == Err::<IgStream, IgError>(IgError::eof(e)),
        },
{
    let ghost d = data@;
    let length: usize = data.len();
    let ghost all = (StreamModel {
        sets: seq![],
        current: empty_set(),
        pending: seq![],
    }).after_all(d, 0);
    let mut a: Assembly = Assembly::new();
    let mut p: usize = 0;
    while p < length
        invariant
            p <= length,
            length == d.len(),
            d == data@,
            distinct_ids(a@.pending),
            a@.after_all(d, p as int) == all,
            all == (StreamModel {
                sets: seq![],
                current: empty_set(),
                pending: seq![],
            }).after_all(d, 0),
        decreases length - p,
    {
        let kind: u8 = data[p];
        if length - p < 3 {
            return Err(
                IgError::UnexpectedEof { offset: p + 1, needed: 2, available: length - p - 1 },
            );
        }
        let size: usize = get_u16(data, p + 1) as usize;
        let start: usize = p + 3;
        if length - start < size {
            return Err(
                IgError::UnexpectedEof { offset: start, needed: size, available: length - start },
            );
        }
        let body: &[u8] = vstd::slice::slice_subrange(data, start, start + size);
        match a.segment(kind, body) {
            Ok(()) => {},
            Err(e) => {
                return Err(e);
            },
        }
        p = start + size;
    }
    if a.has_content() {
        a.close();
    }
    Ok(IgStream { display_sets: a.sets })
}

// ---------------------------------------------------------------------------
// Laws
// ---------------------------------------------------------------------------

/// A segment of unknown type is passed over, wherever it stands: the state
/// after it and all later segments is that after the later ones alone.
pub proof fn law_unknown_segment_passed_over(s: StreamModel, d: Seq<u8>, p: int)
    requires
        0 <= p,
        p + 3 + be16(d, p + 1) <= d.len(),
        d[p] != SEG_PALETTE,
        d[p] != SEG_OBJECT,
        d[p] != SEG_COMPOSITION,
        d[p] != SEG_END_OF_DISPLAY,
    ensures
        s.after_all(d, p) == s.after_all(d, p + 3 + be16(d, p + 1)),
{
}

/// Display sets stay in the order in which they end: later segments only add
/// to those that are complete.
pub proof fn law_complete_sets_kept(s: StreamModel, d: Seq<u8>, p: int)
    requires
        0 <= p,
    ensures
        s.after_all(d, p) matches Ok(end) ==> s.sets.len() <= end.sets.len() && forall|i: int|
            0 <= i < s.sets.len() ==> end.sets[i] == #[trigger] s.sets[i],
    decreases d.len() - p,
{
    if left(d.len(), p) >= 3 {
        let size = be16(d, p + 1) as int;
        if left(d.len(), p + 3) >= size {
            if let Ok(next) = s.after(d[p], d.subrange(p + 3, p + 3 + size)) {
                assert(s.sets.len() <= next.sets.len());
                assert forall|i: int| 0 <= i < s.sets.len() implies next.sets[i]
                    == #[trigger] s.sets[i] by {}
                law_complete_sets_kept(next, d, p + 3 + size);
                if let Ok(end) = s.after_all(d, p) {
                    assert forall|i: int| 0 <= i < s.sets.len() implies end.sets[i]
                        == #[trigger] s.sets[i] by {
                        assert(end.sets[i] == next.sets[i]);
                    }
                }
            }
        }
    }
}

/// What bitmap segments one after another make of finished bitmaps and those
/// of which parts are still to come.
pub open spec fn after_bitmaps(
    bodies: Seq<Seq<u8>>,
    objects: Seq<ObjectModel>,
    pending: Seq<ObjectModel>,
) -> Result<(Seq<ObjectModel>, Seq<ObjectModel>), CursorError>
    decreases bodies.len(),
{
    if bodies.len() == 0 {
        Ok((objects, pending))
    } else {
        match after_bitmaps(bodies.drop_last(), objects, pending) {
            Ok((done, open)) => object_in(bodies.last(), done, open),
            Err(e) => Err(e),
        }
    }
}

/// The pixels in those segments that belong to a bitmap, behind their headers.
pub open spec fn pixels_of(bodies: Seq<Seq<u8>>, id: u16) -> Seq<u8>
    decreases bodies.len(),
{
    if bodies.len() == 0 {
        seq![]
    } else if be16(bodies.last(), 0) == id {
        pixels_of(bodies.drop_last(), id) + bodies.last().skip(4)
    } else {
        pixels_of(bodies.drop_last(), id)
    }
}

/// Whether a segment continues a bitmap, without beginning or completing it.
pub open spec fn is_middle(body: Seq<u8>) -> bool {
    body[3] != SEQ_FIRST_AND_LAST && body[3] != SEQ_FIRST && body[3] != SEQ_LAST
}

/// A bitmap that is split over segments is put together again: its size is
/// that of the first part, its pixels are those of all parts in order. Segments
/// of other bitmaps may stand between.
pub proof fn law_split_bitmap_restored(
    first: Seq<u8>,
    between: Seq<Seq<u8>>,
    last: Seq<u8>,
    objects: Seq<ObjectModel>,
    pending: Seq<ObjectModel>,
)
    requires
        first.len() >= 11,
        first[3] == SEQ_FIRST,
        last.len() >= 4,
        last[3] == SEQ_LAST,
        be16(last, 0) == be16(first, 0),
        forall|i: int|
            0 <= i < between.len() && be16(#[trigger] between[i], 0) == be16(first, 0)
                ==> is_middle(between[i]),
        after_bitmaps((seq![first] + between).push(last), objects, pending) is Ok,
    ensures
        after_bitmaps((seq![first] + between).push(last), objects, pending) matches Ok(
            (done, open),
        ) && done.len() > 0 && done.last() == (ObjectModel {
            object_id: be16(first, 0),
            width: be16(first, 7),
            height: be16(first, 9),
            rle_data: first.skip(11) + pixels_of(between, be16(first, 0)) + last.skip(4),
        }) && those_with(open, be16(first, 0)).len() == 0,
{
    let id = be16(first, 0);
    let begun = ObjectModel {
        object_id: id,
        width: be16(first, 7),
        height: be16(first, 9),
        rle_data: first.skip(11),
    };
    let whole = longer(begun, pixels_of(between, id));
    let most = seq![first] + between;
    reveal_with_fuel(fields, 5);
    assert(most.push(last).drop_last() =~= most);
    lemma_split_bitmap(first, between, objects, pending);
    if let Ok((done, open)) = after_bitmaps(most, objects, pending) {
        assert(those_with(open, id) == seq![whole]);
        assert(continued(seq![whole], id, last.skip(4)) =~= seq![longer(whole, last.skip(4))]);
        assert((done + seq![longer(whole, last.skip(4))]).last() == longer(whole, last.skip(4)));
        lemma_without_has_none(open, id);
    }
}

proof fn lemma_split_bitmap(
    first: Seq<u8>,
    between: Seq<Seq<u8>>,
    objects: Seq<ObjectModel>,
    pending: Seq<ObjectModel>,
)
    requires
        first.len() >= 11,
        first[3] == SEQ_FIRST,
        forall|i: int|
            0 <= i < between.len() && be16(#[trigger] between[i], 0) == be16(first, 0)
                ==> is_middle(between[i]),
    ensures
        after_bitmaps(seq![first] + between, objects, pending) matches Ok((done, open))
            ==> those_with(open, be16(first, 0)) == seq![
            ObjectModel {
                object_id: be16(first, 0),
                width: be16(first, 7),
                height: be16(first, 9),
                rle_data: first.skip(11) + pixels_of(between, be16(first, 0)),
            },
        ],
    decreases between.len(),
{
    let id = be16(first, 0);
    let bodies = seq![first] + between;
    let begun = ObjectModel {
        object_id: id,
        width: be16(first, 7),
        height: be16(first, 9),
        rle_data: first.skip(11),
    };
    reveal_with_fuel(fields, 5);
    if between.len() == 0 {
        assert(bodies =~= seq![first]);
        assert(bodies.drop_last() =~= seq![]);
        assert(after_bitmaps(seq![], objects, pending) == Ok::<
            (Seq<ObjectModel>, Seq<ObjectModel>),
            CursorError,
        >((objects, pending)));
        let rest = without(pending, id);
        lemma_without_has_none(pending, id);
        assert(rest.push(begun).drop_last() =~= rest);
        assert(those_with(rest.push(begun), id) =~= seq![begun]);
        assert(begun.rle_data + Seq::<u8>::empty() =~= begun.rle_data);
    } else {
        let body = between.last();
        let chunk = body.skip(4);
        assert(bodies.drop_last() =~= seq![first] + between.drop_last());
        assert(bodies.last() == body);
        assert forall|i: int|
            0 <= i < between.drop_last().len() && be16(#[trigger] between.drop_last()[i], 0)
                == id implies is_middle(between.drop_last()[i]) by {
            assert(between.drop_last()[i] == between[i]);
        }
        lemma_split_bitmap(first, between.drop_last(), objects, pending);
        if let Ok((done, open)) = after_bitmaps(bodies.drop_last(), objects, pending) {
            let so_far = longer(begun, pixels_of(between.drop_last(), id));
            let other = be16(body, 0);
            assert(those_with(open, id) == seq![so_far]);
            lemma_continued_with(open, other, chunk, id);
            assert(between[between.len() - 1] == body);
            if other == id {
                assert(continued(seq![so_far], id, chunk) =~= seq![longer(so_far, chunk)]);
                assert(so_far.rle_data + chunk =~= begun.rle_data + pixels_of(between, id));
            } else {
                lemma_without_other(open, other, id);
                if let Ok((_, now)) = object_in(body, done, open) {
                    if body[3] == SEQ_FIRST {
                        assert(now.drop_last() =~= without(open, other));
                    }
                }
            }
        }
    }
}

proof fn lemma_without_has_none(pending: Seq<ObjectModel>, id: u16)
    ensures
        those_with(without(pending, id), id) == Seq::<ObjectModel>::empty(),
    decreases pending.len(),
{
    if pending.len() > 0 {
        let before = without(pending.drop_last(), id);
        lemma_without_has_none(pending.drop_last(), id);
        assert(before.push(pending.last()).drop_last() =~= before);
    }
}

proof fn lemma_without_other(pending: Seq<ObjectModel>, other: u16, id: u16)
    requires
        other != id,
    ensures
        those_with(without(pending, other), id) == those_with(pending, id),
    decreases pending.len(),
{
    if pending.len() > 0 {
        let before = without(pending.drop_last(), other);
        lemma_without_other(pending.drop_last(), other, id);
        assert(before.push(pending.last()).drop_last() =~= before);
    }
}

proof fn lemma_continued_with(pending: Seq<ObjectModel>, other: u16, chunk: Seq<u8>, id: u16)
    ensures
        those_with(continued(pending, other, chunk), id) == if other == id {
            continued(those_with(pending, id), id, chunk)
        } else {
            those_with(pending, id)
        },
    decreases pending.len(),
{
    let all = continued(pending, other, chunk);
    if pending.len() == 0 {
        assert(all =~= seq![]);
        assert(continued(Seq::<ObjectModel>::empty(), id, chunk) =~= seq![]);
    } else {
        let init = pending.drop_last();
        lemma_continued_with(init, other, chunk, id);
        assert(all.drop_last() =~= continued(init, other, chunk));
        let before = those_with(init, id);
        assert(continued(before.push(pending.last()), id, chunk) =~= continued(
            before,
            id,
            chunk,
        ).push(continued(seq![pending.last()], id, chunk)[0]));
        assert(continued(seq![pending.last()], id, chunk)[0] == if pending.last().object_id == id {
            longer(pending.last(), chunk)
        } else {
            pending.last()
        });
    }
}

} // verus!
