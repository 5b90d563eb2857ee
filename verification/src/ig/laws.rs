//! What lies where in the segments of an interactive graphics stream.
use vstd::prelude::*;

use super::{
    button_layout, button_parser, command_layout, command_parser, composition_in,
    composition_layout, continued, effect_layout, effect_parser, effects_at, group_layout,
    group_parser, object_in, object_layout, page_at, page_layout, page_tail_layout, pages_at,
    pages_layout, palette_in, palette_layout, placed_layout, placed_parser, sets_of, size_layout,
    stream_sets, those_with, timeout_layout, window_parser, without, Button, ButtonModel,
    DisplaySet, InteractiveComposition, NavigationCommand, ObjectDefinition, ObjectModel, Page,
    Palette, SetModel, StreamModel,
};
use crate::cursor::laws::{extent, law_equal_items, law_items_follow, law_items_read, lemma_fields};
use crate::cursor::{fields, items, short, CursorError};
use crate::seqs::concat;

verus! {

// ---------------------------------------------------------------------------
// Palettes
// ---------------------------------------------------------------------------

/// A palette has its number in its first byte and a version in its second.
/// Entries of five bytes follow: index, luma, red difference, blue difference
/// and opacity.
pub proof fn law_palettes_lie(d: Seq<u8>)
    ensures
        palette_in(d) is Ok <==> d.len() >= 2,
        palette_in(d) matches Ok(palette) ==> {
            &&& palette.palette_id == d[0]
            &&& palette.entries.len() == (d.len() - 2) / 5
            &&& forall|k: int|
                0 <= k < palette.entries.len() ==> {
                    let e = #[trigger] palette.entries[k];
                    &&& e.index == d[2 + 5 * k]
                    &&& e.y == d[3 + 5 * k]
                    &&& e.cr == d[4 + 5 * k]
                    &&& e.cb == d[5 + 5 * k]
                    &&& e.alpha == d[6 + 5 * k]
                }
        },
{
    assert(extent(palette_layout(), 0, palette_layout().len() as int) == 2) by {
        reveal_with_fuel(extent, 3);
    }
    lemma_fields(d.len(), 0, palette_layout(), 2);
}

// ---------------------------------------------------------------------------
// Bitmaps
// ---------------------------------------------------------------------------

/// Whether a segment begins a bitmap, and the bitmap that it begins: the number
/// in the first two bytes, width and height in bytes 7 to 10, and pixels from
/// byte 11 on.
pub open spec fn begins(d: Seq<u8>, o: ObjectModel) -> bool {
    &&& d.len() >= 11
    &&& o.object_id == 256 * d[0] + d[1]
    &&& o.width == 256 * d[7] + d[8]
    &&& o.height == 256 * d[9] + d[10]
    &&& o.rle_data == d.subrange(11, d.len() as int)
}

/// What a segment does by its fourth byte. 0xC0: the bitmap is complete. 0x80:
/// it is begun, and one of the same number that was begun before is dropped.
/// 0x40: those begun with the number get the bytes from the fifth on and are
/// complete. Any other: they get the bytes, and more is to come.
pub proof fn law_bitmap_segments(
    d: Seq<u8>,
    objects: Seq<ObjectModel>,
    pending: Seq<ObjectModel>,
    o: ObjectModel,
)
    ensures
        ({
            let result = object_in(d, objects, pending);
            let id = (256 * d[0] + d[1]) as u16;
            let rest = d.subrange(4, d.len() as int);
            let begin = d[3] == 0xC0 || d[3] == 0x80;
            &&& result is Ok <==> d.len() >= 4 && (begin ==> d.len() >= 11)
            &&& result is Ok && d[3] == 0xC0 && begins(d, o) ==> result->Ok_0 == (
                objects.push(o),
                pending,
            )
            &&& result is Ok && d[3] == 0x80 && begins(d, o) ==> result->Ok_0 == (
                objects,
                without(pending, id).push(o),
            )
            &&& result is Ok && d[3] == 0x40 ==> result->Ok_0 == (
                objects + continued(those_with(pending, id), id, rest),
                without(pending, id),
            )
            &&& result is Ok && d[3] != 0x40 && !begin ==> result->Ok_0 == (
                objects,
                continued(pending, id, rest),
            )
        }),
{
    assert(extent(object_layout(), 0, object_layout().len() as int) == 4) by {
        reveal_with_fuel(extent, 4);
    }
    lemma_fields(d.len(), 0, object_layout(), 4);
    if d.len() >= 4 {
        assert(extent(size_layout(), 0, size_layout().len() as int) == 7) by {
            reveal_with_fuel(extent, 4);
        }
        lemma_fields(d.len(), 4, size_layout(), 7);
        assert(d.skip(4) =~= d.subrange(4, d.len() as int));
        if begins(d, o) {
            assert(d.skip(11) =~= d.subrange(11, d.len() as int));
            assert(o == (ObjectModel {
                object_id: (256 * d[0] + d[1]) as u16,
                width: (256 * d[7] + d[8]) as u16,
                height: (256 * d[9] + d[10]) as u16,
                rle_data: d.skip(11),
            }));
        }
    }
}

/// Picking bitmaps by number keeps their order; more pixels go to the end of
/// those with the number, and leave the others alone.
pub proof fn law_bitmaps_picked(
    pending: Seq<ObjectModel>,
    o: ObjectModel,
    id: u16,
    chunk: Seq<u8>,
    i: int,
)
    ensures
        without(Seq::empty(), id).len() == 0,
        those_with(Seq::empty(), id).len() == 0,
        o.object_id == id ==> without(pending.push(o), id) == without(pending, id)
            && those_with(pending.push(o), id) == those_with(pending, id).push(o),
        o.object_id != id ==> without(pending.push(o), id) == without(pending, id).push(o)
            && those_with(pending.push(o), id) == those_with(pending, id),
        continued(pending, id, chunk).len() == pending.len(),
        0 <= i < pending.len() ==> ({
            let now = continued(pending, id, chunk)[i];
            &&& now.object_id == pending[i].object_id
            &&& now.width == pending[i].width
            &&& now.height == pending[i].height
            &&& pending[i].object_id == id ==> now.rle_data == pending[i].rle_data + chunk
            &&& pending[i].object_id != id ==> now.rle_data == pending[i].rle_data
        }),
{
    assert(pending.push(o).drop_last() =~= pending);
}

// ---------------------------------------------------------------------------
// Buttons
// ---------------------------------------------------------------------------

/// A command has twelve bytes. If the first is 0x21, it plays the playlist in
/// the last two; else it is kept as its first word.
pub proof fn law_commands_lie(d: Seq<u8>, p: int)
    requires
        0 <= p <= d.len(),
    ensures
        command_parser(d)(p) is Ok <==> p + 12 <= d.len(),
        command_parser(d)(p) matches Ok((command, end)) ==> {
            &&& end == p + 12
            &&& d[p] == 0x21 ==> command == (NavigationCommand::PlayPl {
                playlist: (256 * d[p + 10] + d[p + 11]) as u16,
            })
            &&& d[p] != 0x21 ==> command is Other && command->opcode == 0x100_0000 * d[p]
                + 0x1_0000 * d[p + 1] + 0x100 * d[p + 2] + d[p + 3]
        },
{
    assert(extent(command_layout(), 0, command_layout().len() as int) == 12) by {
        reveal_with_fuel(extent, 4);
    }
    lemma_fields(d.len(), p, command_layout(), 12);
}

proof fn lemma_button_head()
    ensures
        extent(button_layout(), 0, button_layout().len() as int) == 35,
{
    reveal_with_fuel(extent, 18);
}

/// A button has a head of 35 bytes and its commands behind it. In the head are
/// its number in bytes 0 and 1, its position in bytes 5 to 8, the object of
/// the normal state in bytes 17 and 18, that of the selected state in bytes 23
/// and 24, and the number of commands in bytes 33 and 34.
pub proof fn law_buttons_lie(d: Seq<u8>, p: int)
    requires
        0 <= p <= d.len(),
    ensures
        ({
            let count = 256 * d[p + 33] + d[p + 34];
            &&& button_parser(d)(p) is Ok <==> p + 35 <= d.len() && p + 35 + 12 * count <= d.len()
            &&& button_parser(d)(p) matches Ok((button, end)) ==> {
                &&& end == p + 35 + 12 * count
                &&& button.button_id == 256 * d[p] + d[p + 1]
                &&& button.x == 256 * d[p + 5] + d[p + 6]
                &&& button.y == 256 * d[p + 7] + d[p + 8]
                &&& button.normal_object_id == 256 * d[p + 17] + d[p + 18]
                &&& button.selected_object_id == 256 * d[p + 23] + d[p + 24]
                &&& button.commands.len() == count
                &&& forall|k: int|
                    0 <= k < count ==> #[trigger] button.commands[k] == command_parser(d)(
                        p + 35 + 12 * k,
                    )->Ok_0.0
            }
        }),
{
    lemma_button_head();
    lemma_fields(d.len(), p, button_layout(), 35);
    if p + 35 <= d.len() {
        let count = 256 * d[p + 33] + d[p + 34];
        assert forall|q: int| 0 <= q <= d.len() implies (#[trigger] command_parser(d)(q) is Ok
            <==> q + 12 <= d.len()) && (command_parser(d)(q) is Ok ==> command_parser(d)(
            q,
        )->Ok_0.1 == q + 12) by {
            law_commands_lie(d, q);
        }
        law_equal_items(command_parser(d), d.len(), p + 35, 12, count);
        if let Ok((button, end)) = button_parser(d)(p) {
            assert forall|k: int| 0 <= k < count implies #[trigger] button.commands[k]
                == command_parser(d)(p + 35 + 12 * k)->Ok_0.0 by {
                assert(k * 12 == 12 * k);
            }
        }
    }
}

/// An overlap group has a head of three bytes, of which the last counts its
/// buttons. They follow one behind the other.
pub proof fn law_groups_lie(d: Seq<u8>, p: int) -> (at: Seq<int>)
    requires
        0 <= p <= d.len(),
        group_parser(d)(p) is Ok,
    ensures
        ({
            let (list, end) = group_parser(d)(p)->Ok_0;
            &&& p + 3 <= d.len()
            &&& list.len() == d[p + 2]
            &&& at.len() == list.len() + 1
            &&& at[0] == p + 3
            &&& at[list.len() as int] == end
            &&& forall|k: int|
                0 <= k < list.len() ==> #[trigger] button_parser(d)(at[k]) == Ok::<
                    (ButtonModel, int),
                    CursorError,
                >((list[k], at[k + 1]))
        }),
{
    assert(extent(group_layout(), 0, group_layout().len() as int) == 3) by {
        reveal_with_fuel(extent, 3);
    }
    lemma_fields(d.len(), p, group_layout(), 3);
    law_items_follow(button_parser(d), p + 3, d[p + 2] as int)
}

/// A group can be read if its head fits and its buttons can be read one behind
/// the other.
pub proof fn law_groups_read(d: Seq<u8>, p: int, list: Seq<ButtonModel>, at: Seq<int>)
    requires
        0 <= p,
        p + 3 <= d.len(),
        list.len() == d[p + 2],
        at.len() == list.len() + 1,
        at[0] == p + 3,
        forall|k: int|
            0 <= k < list.len() ==> #[trigger] button_parser(d)(at[k]) == Ok::<
                (ButtonModel, int),
                CursorError,
            >((list[k], at[k + 1])),
    ensures
        group_parser(d)(p) == Ok::<(Seq<ButtonModel>, int), CursorError>(
            (list, at[list.len() as int]),
        ),
{
    assert(extent(group_layout(), 0, group_layout().len() as int) == 3) by {
        reveal_with_fuel(extent, 3);
    }
    lemma_fields(d.len(), p, group_layout(), 3);
    law_items_read(button_parser(d), list, at, list.len() as int);
    assert(list.take(list.len() as int) =~= list);
}

// ---------------------------------------------------------------------------
// Effects
// ---------------------------------------------------------------------------

/// A composition object has eight bytes, and eight more if the top bit of its
/// fourth byte is set. A window has nine bytes.
pub proof fn law_placed_objects_lie(d: Seq<u8>, p: int)
    requires
        0 <= p <= d.len(),
    ensures
        placed_parser(d)(p) is Ok <==> p + 8 <= d.len() && (d[p + 3] >= 0x80 ==> p + 16
            <= d.len()),
        placed_parser(d)(p) is Ok && d[p + 3] >= 0x80 ==> placed_parser(d)(p)->Ok_0.1 == p + 16,
        placed_parser(d)(p) is Ok && d[p + 3] < 0x80 ==> placed_parser(d)(p)->Ok_0.1 == p + 8,
        window_parser(d)(p) is Ok <==> p + 9 <= d.len(),
        window_parser(d)(p) is Ok ==> window_parser(d)(p)->Ok_0.1 == p + 9,
{
    assert(extent(placed_layout(), 0, placed_layout().len() as int) == 4) by {
        reveal_with_fuel(extent, 3);
    }
    lemma_fields(d.len(), p, placed_layout(), 4);
    assert(extent(seq![9usize], 0, seq![9usize].len() as int) == 9) by {
        reveal_with_fuel(extent, 2);
    }
    lemma_fields(d.len(), p, seq![9usize], 9);
    if p + 4 <= d.len() {
        assert(extent(seq![4usize, 8], 0, seq![4usize, 8].len() as int) == 12) by {
            reveal_with_fuel(extent, 3);
        }
        lemma_fields(d.len(), p + 4, seq![4usize, 8], 12);
        assert(extent(seq![4usize], 0, seq![4usize].len() as int) == 4) by {
            reveal_with_fuel(extent, 2);
        }
        lemma_fields(d.len(), p + 4, seq![4usize], 4);
    }
}

/// An effect has a head of five bytes, of which the last counts its
/// composition objects. They follow one behind the other.
pub proof fn law_effects_lie(d: Seq<u8>, p: int)
    requires
        0 <= p <= d.len(),
    ensures
        p + 5 > d.len() ==> effect_parser(d)(p) is Err,
        p + 5 <= d.len() ==> ({
            let list = items(placed_parser(d), p + 5, d[p + 4] as int);
            &&& effect_parser(d)(p) is Ok <==> list is Ok
            &&& list is Ok ==> effect_parser(d)(p)->Ok_0.1 == list->Ok_0.1
        }),
{
    assert(extent(effect_layout(), 0, effect_layout().len() as int) == 5) by {
        reveal_with_fuel(extent, 4);
    }
    lemma_fields(d.len(), p, effect_layout(), 5);
}

/// An effect sequence is a count and as many windows of nine bytes, then a
/// count and as many effects.
pub proof fn law_effect_sequences_lie(d: Seq<u8>, p: int)
    requires
        0 <= p <= d.len(),
    ensures
        ({
            let q = p + 1 + 9 * d[p];
            let list = items(effect_parser(d), q + 1, d[q] as int);
            &&& effects_at(d, p) is Ok <==> p + 1 <= d.len() && q + 1 <= d.len() && list is Ok
            &&& effects_at(d, p) is Ok ==> effects_at(d, p)->Ok_0.1 == list->Ok_0.1
        }),
{
    assert(extent(seq![1usize], 0, seq![1usize].len() as int) == 1) by {
        reveal_with_fuel(extent, 2);
    }
    lemma_fields(d.len(), p, seq![1usize], 1);
    if p + 1 <= d.len() {
        let q = p + 1 + 9 * d[p];
        assert forall|r: int| 0 <= r <= d.len() implies (#[trigger] window_parser(d)(r) is Ok
            <==> r + 9 <= d.len()) && (window_parser(d)(r) is Ok ==> window_parser(d)(r)->Ok_0.1
            == r + 9) by {
            law_placed_objects_lie(d, r);
        }
        law_equal_items(window_parser(d), d.len(), p + 1, 9, d[p] as int);
        if q <= d.len() {
            assert(extent(seq![1usize], 0, seq![1usize].len() as int) == 1) by {
                reveal_with_fuel(extent, 2);
            }
            lemma_fields(d.len(), q, seq![1usize], 1);
        }
    }
}

// ---------------------------------------------------------------------------
// Pages
// ---------------------------------------------------------------------------

proof fn lemma_page_parts(d: Seq<u8>, p: int)
    requires
        0 <= p <= d.len(),
        page_at(d, p) is Ok,
    ensures
        ({
            let (page, end) = page_at(d, p)->Ok_0;
            let q = effects_at(d, p + 10)->Ok_0.1;
            let r = effects_at(d, q)->Ok_0.1;
            let list = items(group_parser(d), r + 7, d[r + 6] as int);
            &&& p + 10 <= d.len()
            &&& effects_at(d, p + 10) is Ok
            &&& effects_at(d, q) is Ok
            &&& list is Ok
            &&& page.page_id == d[p]
            &&& page.buttons == concat(list->Ok_0.0)
            &&& end == list->Ok_0.1
        }),
{
    assert(extent(page_layout(), 0, page_layout().len() as int) == 10) by {
        reveal_with_fuel(extent, 4);
    }
    lemma_fields(d.len(), p, page_layout(), 10);
    let q = effects_at(d, p + 10)->Ok_0.1;
    let r = effects_at(d, q)->Ok_0.1;
    assert(fields(d.len(), r, page_tail_layout(), 0) matches Ok(s) ==> s == r + 7) by {
        reveal_with_fuel(fields, 5);
    }
}

/// A page has its number in its first byte and nine more bytes, two effect
/// sequences, seven bytes of which the last counts its groups, and the groups
/// one behind the other. Its buttons are those of all groups in order.
pub proof fn law_pages_lie(d: Seq<u8>, p: int) -> (w: (Seq<int>, Seq<Seq<ButtonModel>>))
    requires
        0 <= p <= d.len(),
        page_at(d, p) is Ok,
    ensures
        ({
            let (at, groups) = w;
            let (page, end) = page_at(d, p)->Ok_0;
            let q = effects_at(d, p + 10)->Ok_0.1;
            let r = effects_at(d, q)->Ok_0.1;
            &&& p + 10 <= d.len()
            &&& effects_at(d, p + 10) is Ok
            &&& effects_at(d, q) is Ok
            &&& page.page_id == d[p]
            &&& page.buttons == concat(groups)
            &&& groups.len() == d[r + 6]
            &&& at.len() == groups.len() + 1
            &&& at[0] == r + 7
            &&& at[groups.len() as int] == end
            &&& forall|k: int|
                0 <= k < groups.len() ==> #[trigger] group_parser(d)(at[k]) == Ok::<
                    (Seq<ButtonModel>, int),
                    CursorError,
                >((groups[k], at[k + 1]))
        }),
{
    lemma_page_parts(d, p);
    let q = effects_at(d, p + 10)->Ok_0.1;
    let r = effects_at(d, q)->Ok_0.1;
    let at = law_items_follow(group_parser(d), r + 7, d[r + 6] as int);
    (at, items(group_parser(d), r + 7, d[r + 6] as int)->Ok_0.0)
}

/// Pages are read one behind the other, up to the given number, the end of the
/// data, or the first that cannot be read.
pub proof fn law_pages_follow(d: Seq<u8>, p: int, n: int)
    requires
        0 <= p,
    ensures
        n <= 0 || p >= d.len() ==> pages_at(d, p, n).len() == 0,
        n > 0 && p < d.len() ==> match page_at(d, p) {
            Ok((page, end)) => {
                &&& pages_at(d, p, n).len() == 1 + pages_at(d, end, n - 1).len()
                &&& pages_at(d, p, n)[0] == page
                &&& pages_at(d, p, n).skip(1) == pages_at(d, end, n - 1)
            },
            Err(_) => pages_at(d, p, n).len() == 0,
        },
{
    if n > 0 && p < d.len() {
        if let Ok((page, end)) = page_at(d, p) {
            assert(pages_at(d, p, n).skip(1) =~= pages_at(d, end, n - 1));
        }
    }
}

proof fn lemma_composition_head()
    ensures
        extent(composition_layout(), 0, composition_layout().len() as int) == 13,
{
    reveal_with_fuel(extent, 9);
}

/// A composition has its width in its first two bytes and its height in the
/// next two. If the top bit of byte 12 is clear, eleven bytes of timeouts
/// follow byte 12. Behind three more bytes there is the number of pages, and
/// then the pages.
pub proof fn law_compositions_lie(d: Seq<u8>)
    ensures
        ({
            let q: int = if d[12] < 0x80 {
                24
            } else {
                13
            };
            &&& composition_in(d) is Ok <==> d.len() >= 13 && d.len() >= q + 4
            &&& composition_in(d) matches Ok(c) ==> {
                &&& c.width == 256 * d[0] + d[1]
                &&& c.height == 256 * d[2] + d[3]
                &&& c.pages == pages_at(d, q + 4, d[q + 3] as int)
            }
        }),
{
    lemma_composition_head();
    lemma_fields(d.len(), 0, composition_layout(), 13);
    if d.len() >= 13 {
        assert(extent(timeout_layout(), 0, timeout_layout().len() as int) == 11) by {
            reveal_with_fuel(extent, 4);
        }
        lemma_fields(d.len(), 13, timeout_layout(), 11);
        assert(extent(pages_layout(), 0, pages_layout().len() as int) == 4) by {
            reveal_with_fuel(extent, 3);
        }
        lemma_fields(d.len(), 13, pages_layout(), 4);
        if d.len() >= 24 {
            assert(extent(pages_layout(), 0, pages_layout().len() as int) == 4) by {
                reveal_with_fuel(extent, 3);
            }
            lemma_fields(d.len(), 24, pages_layout(), 4);
        }
    }
}

// ---------------------------------------------------------------------------
// Segments
// ---------------------------------------------------------------------------

/// What a segment does by its number: 0x14 adds a palette, 0x15 is a part of a
/// bitmap, 0x18 adds a composition, 0x80 closes the display set with the
/// bitmaps that are not complete, and any other changes nothing.
pub proof fn law_segments_by_number(s: StreamModel, kind: u8, body: Seq<u8>)
    ensures
        ({
            let now = s.after(kind, body);
            let next = now->Ok_0;
            &&& kind == 0x14 ==> (now is Ok <==> palette_in(body) is Ok)
            &&& kind == 0x15 ==> (now is Ok <==> object_in(
                body,
                s.current.objects,
                s.pending,
            ) is Ok)
            &&& kind == 0x18 ==> (now is Ok <==> composition_in(body) is Ok)
            &&& kind != 0x14 && kind != 0x15 && kind != 0x18 ==> now is Ok
            &&& now is Ok && kind == 0x14 ==> {
                &&& next.current.palettes == s.current.palettes.push(palette_in(body)->Ok_0)
                &&& next.current.objects == s.current.objects
                &&& next.current.compositions == s.current.compositions
                &&& next.sets == s.sets
                &&& next.pending == s.pending
            }
            &&& now is Ok && kind == 0x15 ==> {
                let (objects, pending) = object_in(body, s.current.objects, s.pending)->Ok_0;
                &&& next.current.palettes == s.current.palettes
                &&& next.current.objects == objects
                &&& next.current.compositions == s.current.compositions
                &&& next.sets == s.sets
                &&& next.pending == pending
            }
            &&& now is Ok && kind == 0x18 ==> {
                &&& next.current.palettes == s.current.palettes
                &&& next.current.objects == s.current.objects
                &&& next.current.compositions == s.current.compositions.push(
                    composition_in(body)->Ok_0,
                )
                &&& next.sets == s.sets
                &&& next.pending == s.pending
            }
            &&& kind == 0x80 ==> {
                &&& next.sets.len() == s.sets.len() + 1
                &&& next.sets.drop_last() == s.sets
                &&& next.sets.last().palettes == s.current.palettes
                &&& next.sets.last().objects == s.current.objects + s.pending
                &&& next.sets.last().compositions == s.current.compositions
                &&& next.current.palettes.len() == 0
                &&& next.current.objects.len() == 0
                &&& next.current.compositions.len() == 0
                &&& next.pending.len() == 0
            }
            &&& kind != 0x14 && kind != 0x15 && kind != 0x18 && kind != 0x80 ==> next == s
        }),
{
    if kind == 0x80 {
        assert(s.after(kind, body)->Ok_0.sets.drop_last() =~= s.sets);
    }
}

/// Segments lie one behind the other: a byte of number, two of length, and the
/// body. A stream that ends inside one cannot be read.
#[verifier::rlimit(30)]
pub proof fn law_segments_lie(s: StreamModel, d: Seq<u8>, p: int)
    requires
        0 <= p <= d.len(),
    ensures
        ({
            let size = 256 * d[p + 1] + d[p + 2];
            &&& p == d.len() ==> s.after_all(d, p) == Ok::<StreamModel, CursorError>(s)
            &&& p < d.len() < p + 3 ==> s.after_all(d, p) == Err::<StreamModel, CursorError>(
                short(d.len(), p + 1, 2),
            )
            &&& p + 3 <= d.len() < p + 3 + size ==> s.after_all(d, p) == Err::<
                StreamModel,
                CursorError,
            >(short(d.len(), p + 3, size))
            &&& p + 3 + size <= d.len() ==> match s.after(
                d[p],
                d.subrange(p + 3, p + 3 + size),
            ) {
                Ok(next) => s.after_all(d, p) == next.after_all(d, p + 3 + size),
                Err(e) => s.after_all(d, p) == Err::<StreamModel, CursorError>(e),
            }
        }),
{
}

/// A stream starts with nothing. A display set that is not closed at its end
/// counts if it holds a palette, a complete bitmap or a composition; it then
/// gets the bitmaps that are not complete.
pub proof fn law_streams_start_and_end(d: Seq<u8>, start: StreamModel)
    requires
        start.sets.len() == 0,
        start.pending.len() == 0,
        start.current.palettes.len() == 0,
        start.current.objects.len() == 0,
        start.current.compositions.len() == 0,
    ensures
        match start.after_all(d, 0) {
            Ok(end) => {
                let held = end.current.palettes.len() > 0 || end.current.objects.len() > 0
                    || end.current.compositions.len() > 0;
                let last = SetModel {
                    palettes: end.current.palettes,
                    objects: end.current.objects + end.pending,
                    compositions: end.current.compositions,
                };
                &&& held ==> stream_sets(d) == Ok::<Seq<SetModel>, CursorError>(
                    end.sets.push(last),
                )
                &&& !held ==> stream_sets(d) == Ok::<Seq<SetModel>, CursorError>(end.sets)
            },
            Err(e) => stream_sets(d) == Err::<Seq<SetModel>, CursorError>(e),
        },
{
    let empty = StreamModel { sets: seq![], current: super::empty_set(), pending: seq![] };
    assert(start =~= empty);
}

/// What bitmaps, buttons, pages and display sets hold is what their contents
/// say.
pub proof fn law_contents(
    palette: Palette,
    bitmap: ObjectDefinition,
    button: Button,
    page: Page,
    screen: InteractiveComposition,
    set: DisplaySet,
    sets: Seq<DisplaySet>,
    i: int,
)
    ensures
        palette@.palette_id == palette.palette_id,
        palette@.entries == palette.entries@,
        bitmap@.object_id == bitmap.object_id,
        bitmap@.width == bitmap.width,
        bitmap@.height == bitmap.height,
        bitmap@.rle_data == bitmap.rle_data@,
        button@.button_id == button.button_id,
        button@.x == button.x,
        button@.y == button.y,
        button@.normal_object_id == button.normal_object_id,
        button@.selected_object_id == button.selected_object_id,
        button@.commands == button.commands@,
        page@.page_id == page.page_id,
        page@.buttons.len() == page.buttons@.len(),
        0 <= i < page.buttons@.len() ==> page@.buttons[i] == page.buttons@[i]@,
        screen@.width == screen.width,
        screen@.height == screen.height,
        screen@.pages.len() == screen.pages@.len(),
        0 <= i < screen.pages@.len() ==> screen@.pages[i] == screen.pages@[i]@,
        set@.palettes.len() == set.palettes@.len(),
        0 <= i < set.palettes@.len() ==> set@.palettes[i] == set.palettes@[i]@,
        set@.objects.len() == set.objects@.len(),
        0 <= i < set.objects@.len() ==> set@.objects[i] == set.objects@[i]@,
        set@.compositions.len() == set.compositions@.len(),
        0 <= i < set.compositions@.len() ==> set@.compositions[i] == set.compositions@[i]@,
        sets_of(sets).len() == sets.len(),
        0 <= i < sets.len() ==> sets_of(sets)[i] == sets[i]@,
{
}

} // verus!
