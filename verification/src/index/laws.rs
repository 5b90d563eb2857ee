//! What lies where in a title table, and which playlists titles register.
use vstd::prelude::*;
use vstd::string::*;

use super::{
    any_registers, any_unresolved, dispatches, file_index, magic, object_layout, object_parser,
    registers, title_object, title_parser, title_plays, titles_of, unresolved, IndexError,
    ObjectModel, ObjectType, Title,
};
use crate::cursor::laws::{extent, law_equal_items, lemma_fields};
use crate::cursor::{eof_text, CursorError};
use crate::lossy::laws::law_ascii_text;
use crate::lossy::text_of;
use crate::mobj::vm::laws::{
    law_first_object_runs_through, law_last_assignment_wins, law_play_ends_run, law_run_goes_on,
    law_run_stops, law_seed_is_what_first_object_leaves, sets_and_plays, sets_in, value_of,
};
use crate::mobj::vm::{first_boot, run, seeded};
use crate::mobj::{DispatchTable, Instruction, MovieObjectFile, VM_STEP_LIMIT};
use crate::text::{bytes_text, decimal};

verus! {

// ---------------------------------------------------------------------------
// Layout
// ---------------------------------------------------------------------------

/// Object references have twelve bytes. The top two bits of the first say
/// whether an application is meant, which they do if they are 2. The top two
/// bits of the fifth are the playback type. A movie object has its number in
/// the seventh and the eighth, and an application its name in the seventh to
/// the eleventh.
pub proof fn law_object_references(d: Seq<u8>, p: int)
    requires
        0 <= p <= d.len(),
    ensures
        object_parser(d)(p) is Ok <==> p + 12 <= d.len(),
        object_parser(d)(p) matches Ok((object, end)) ==> {
            &&& end == p + 12
            &&& 0x80 <= d[p] < 0xC0 ==> object == (ObjectModel::Bdj {
                playback_type: d[p + 4] / 64,
                name: text_of(seq![d[p + 6], d[p + 7], d[p + 8], d[p + 9], d[p + 10]]),
            })
            &&& d[p] < 0x80 || d[p] >= 0xC0 ==> object == (ObjectModel::Hdmv {
                playback_type: d[p + 4] / 64,
                id_ref: (256 * d[p + 6] + d[p + 7]) as u16,
            })
        },
{
    assert(extent(object_layout(), 0, object_layout().len() as int) == 12) by {
        reveal_with_fuel(extent, 3);
    }
    lemma_fields(d.len(), p, object_layout(), 12);
    if p + 12 <= d.len() {
        assert(d.subrange(p + 6, p + 11) =~= seq![
            d[p + 6],
            d[p + 7],
            d[p + 8],
            d[p + 9],
            d[p + 10],
        ]);
    }
}

/// The name of an application is made of the same characters as the bytes
/// where these are ASCII.
pub proof fn law_application_names(d: Seq<u8>, p: int)
    requires
        0 <= p,
        p + 12 <= d.len(),
        0x80 <= d[p] < 0xC0,
        forall|i: int| p + 6 <= i < p + 11 ==> #[trigger] d[i] < 0x80,
    ensures
        object_parser(d)(p) is Ok,
        object_parser(d)(p)->Ok_0.0 is Bdj,
        object_parser(d)(p)->Ok_0.0->name.len() == 5,
        forall|i: int|
            0 <= i < 5 ==> #[trigger] object_parser(d)(p)->Ok_0.0->name[i] as u8 == d[p + 6 + i],
{
    law_object_references(d, p);
    let name = seq![d[p + 6], d[p + 7], d[p + 8], d[p + 9], d[p + 10]];
    law_ascii_text(name);
    assert forall|i: int| 0 <= i < 5 implies name[i] == d[p + 6 + i] by {}
}

/// A title is an object reference; its access type is in bits 5 and 4 of the
/// first byte.
pub proof fn law_titles_are_references(d: Seq<u8>, p: int)
    requires
        0 <= p <= d.len(),
    ensures
        title_parser(d)(p) is Ok <==> p + 12 <= d.len(),
        title_parser(d)(p) matches Ok((title, end)) ==> {
            &&& end == p + 12
            &&& title.0 == (d[p] % 64) / 16
            &&& title.1 == object_parser(d)(p)->Ok_0.0
        },
{
    law_object_references(d, p);
}

/// Where everything lies: the table starts at the position in bytes 8 to 11.
/// Behind four bytes there are the reference of first play, that of the top
/// menu, the number of titles in two bytes, and the titles, twelve bytes each.
/// The file can be read exactly if all this does not reach beyond its end.
pub proof fn law_titles_lie(d: Seq<u8>)
    requires
        d.len() >= 16,
    ensures
        ({
            let start = 0x100_0000 * d[8] + 0x1_0000 * d[9] + 0x100 * d[10] + d[11];
            let count = 256 * d[start + 28] + d[start + 29];
            &&& file_index(d) is Ok <==> start + 30 <= d.len() && start + 30 + 12 * count
                <= d.len()
            &&& file_index(d) matches Ok(((first, menu, titles), _)) ==> {
                &&& first == object_parser(d)(start + 4)->Ok_0.0
                &&& menu == object_parser(d)(start + 16)->Ok_0.0
                &&& titles.len() == count
                &&& forall|k: int|
                    0 <= k < count ==> (#[trigger] titles[k]).1 == object_parser(d)(
                        start + 30 + 12 * k,
                    )->Ok_0.0 && titles[k].0 == (d[start + 30 + 12 * k] % 64) / 16
            }
        }),
{
    let start = 0x100_0000 * d[8] + 0x1_0000 * d[9] + 0x100 * d[10] + d[11];
    let count = 256 * d[start + 28] + d[start + 29];
    if start <= d.len() {
        assert(extent(seq![4usize], 0, seq![4usize].len() as int) == 4) by {
            reveal_with_fuel(extent, 2);
        }
        lemma_fields(d.len(), start, seq![4usize], 4);
        if start + 4 <= d.len() {
            law_object_references(d, start + 4);
        }
        if start + 16 <= d.len() {
            law_object_references(d, start + 16);
        }
        if start + 28 <= d.len() {
            assert(extent(seq![2usize], 0, seq![2usize].len() as int) == 2) by {
                reveal_with_fuel(extent, 2);
            }
            lemma_fields(d.len(), start + 28, seq![2usize], 2);
        }
        if start + 30 <= d.len() {
            assert forall|p: int| 0 <= p <= d.len() implies (#[trigger] title_parser(d)(p) is Ok
                <==> p + 12 <= d.len()) && (title_parser(d)(p) is Ok ==> title_parser(d)(
                p,
            )->Ok_0.1 == p + 12) by {
                law_titles_are_references(d, p);
            }
            law_equal_items(title_parser(d), d.len(), start + 30, 12, count);
            if let Ok(((first, menu, titles), _)) = file_index(d) {
                assert forall|k: int| 0 <= k < count implies (#[trigger] titles[k]).1
                    == object_parser(d)(start + 30 + 12 * k)->Ok_0.0 && titles[k].0 == (d[start
                    + 30 + 12 * k] % 64) / 16 by {
                    assert(titles[k] == title_parser(d)(start + 30 + k * 12)->Ok_0.0);
                    law_titles_are_references(d, start + 30 + 12 * k);
                }
            }
        }
    }
}

/// The first four bytes are `INDX`.
pub proof fn law_magic(d: Seq<u8>)
    requires
        d.len() >= 4,
    ensures
        d.take(4) == magic() <==> d[0] == 0x49 && d[1] == 0x4E && d[2] == 0x44 && d[3] == 0x58,
{
    let head = d.take(4);
    assert(head[0] == d[0] && head[1] == d[1] && head[2] == d[2] && head[3] == d[3]);
    if d[0] == 0x49 && d[1] == 0x4E && d[2] == 0x44 && d[3] == 0x58 {
        assert(head =~= magic());
    }
}

// ---------------------------------------------------------------------------
// Titles
// ---------------------------------------------------------------------------

/// A title starts the movie object of its number, if there is one. An
/// application starts none.
pub proof fn law_title_objects(title: ObjectModel, file: MovieObjectFile)
    ensures
        title is Bdj ==> title_object(title, file) is None,
        title is Hdmv && title->id_ref < file.objects@.len() ==> title_object(title, file) == Some(
            title->id_ref as int,
        ),
        title is Hdmv && title->id_ref >= file.objects@.len() ==> title_object(title, file) is None,
{
}

/// Whether a title starts a movie object whose first instruction plays the
/// playlist that its first operand gives.
pub open spec fn starts_with_play(title: Title, file: MovieObjectFile) -> bool {
    &&& title.object@ is Hdmv
    &&& title.object@->id_ref < file.objects@.len()
    &&& first_instruction(title, file) is Some
    &&& first_instruction(title, file)->0.group == 0
    &&& first_instruction(title, file)->0.sub_group == 2
}

/// The first instruction of the movie object that a title starts.
pub open spec fn first_instruction(title: Title, file: MovieObjectFile) -> Option<Instruction> {
    let instrs = file.objects@[title.object@->id_ref as int].instructions@;
    if instrs.len() > 0 {
        Some(instrs[0])
    } else {
        None
    }
}

/// The value of a general purpose register after the first movie object has
/// run on a player that has just been switched on. No play instruction ends
/// that run. A register that was never set is zero.
pub open spec fn left_by_first_object(file: MovieObjectFile, r: u32) -> u32 {
    let regs = run(
        file.objects@[0].instructions@,
        0,
        first_boot(),
        set![0xFFFF_FFFFu32],
        10_000,
    ).1;
    if regs.contains_key(r) {
        regs[r]
    } else {
        0
    }
}

/// A title that plays the playlist in a register registers exactly the number
/// that the first movie object left there, whenever that can be played. Where
/// the first object leaves another value, another playlist is registered.
pub proof fn law_titles_play_what_first_object_left(
    titles: Seq<Title>,
    i: int,
    file: MovieObjectFile,
    r: u32,
)
    requires
        0 <= i < titles.len(),
        starts_with_play(titles[i], file),
        !first_instruction(titles[i], file)->0.imm_op1,
        first_instruction(titles[i], file)->0.dst == r,
        r < 0x8000_0000,
        left_by_first_object(file, r) != 0,
        left_by_first_object(file, r) != 65535,
    ensures
        forall|n: u32|
            registers(titles[i].object@, file, n) <==> n == left_by_first_object(file, r)
                % 0x1_0000,
        any_registers(titles, file, left_by_first_object(file, r) % 0x1_0000),
        !unresolved(titles[i].object@, file),
{
    let k = titles[i].object@->id_ref as int;
    let instrs = file.objects@[k].instructions@;
    let v = left_by_first_object(file, r);
    law_seed_is_what_first_object_leaves(file, r);
    assert(value_of(false, r, seeded(file)) == v);
    law_play_ends_run(instrs, 0, seeded(file), Set::empty(), VM_STEP_LIMIT as nat);
    assert(title_plays(k, file)->0.playlist == v % 0x1_0000);
    assert(registers(titles[i].object@, file, v % 0x1_0000));
}

/// A title whose program is one play instruction of a register, where the
/// first movie object left 0 or 65535, plays nothing.
pub proof fn law_titles_without_number_play_nothing(
    titles: Seq<Title>,
    i: int,
    file: MovieObjectFile,
    r: u32,
    n: u32,
)
    requires
        0 <= i < titles.len(),
        starts_with_play(titles[i], file),
        file.objects@[titles[i].object@->id_ref as int].instructions@.len() == 1,
        !first_instruction(titles[i], file)->0.imm_op1,
        first_instruction(titles[i], file)->0.dst == r,
        r < 0x8000_0000,
        left_by_first_object(file, r) == 0 || left_by_first_object(file, r) == 65535,
    ensures
        unresolved(titles[i].object@, file),
        !registers(titles[i].object@, file, n),
        any_unresolved(titles, file),
{
    let k = titles[i].object@->id_ref as int;
    let instrs = file.objects@[k].instructions@;
    law_seed_is_what_first_object_leaves(file, r);
    assert(value_of(false, r, seeded(file)) == left_by_first_object(file, r));
    law_run_goes_on(instrs, 0, seeded(file), Set::empty(), VM_STEP_LIMIT as nat);
    law_run_stops(instrs, 1, seeded(file), Set::empty(), (VM_STEP_LIMIT - 1) as nat);
}

/// If the first movie object sets registers to immediate values, a title that
/// plays the playlist in one of them registers the value that was set last.
#[verifier::rlimit(40)]
pub proof fn law_titles_play_set_numbers(
    titles: Seq<Title>,
    i: int,
    file: MovieObjectFile,
    k: int,
)
    requires
        0 <= i < titles.len(),
        starts_with_play(titles[i], file),
        !first_instruction(titles[i], file)->0.imm_op1,
        file.objects@[0].instructions@.len() <= 10_000,
        sets_and_plays(file.objects@[0].instructions@),
        ({
            let sets = sets_in(
                file.objects@[0].instructions@,
                file.objects@[0].instructions@.len() as int,
            );
            &&& 0 <= k < sets.len()
            &&& sets[k].0 == first_instruction(titles[i], file)->0.dst
            &&& 0 < sets[k].1 < 65535
            &&& forall|j: int| k < j < sets.len() ==> (#[trigger] sets[j]).0 != sets[k].0
        }),
    ensures
        ({
            let sets = sets_in(
                file.objects@[0].instructions@,
                file.objects@[0].instructions@.len() as int,
            );
            &&& any_registers(titles, file, sets[k].1)
            &&& forall|n: u32| registers(titles[i].object@, file, n) <==> n == sets[k].1
        }),
{
    let instrs = file.objects@[0].instructions@;
    let sets = sets_in(instrs, instrs.len() as int);
    let title = titles[i].object@->id_ref as int;
    let program = file.objects@[title].instructions@;
    assert(seeded(file).contains_key(sets[k].0) && seeded(file)[sets[k].0] == sets[k].1) by {
        law_first_object_runs_through(file);
        law_last_assignment_wins(Map::empty(), sets, sets[k].0);
    }
    law_play_ends_run(program, 0, seeded(file), Set::empty(), VM_STEP_LIMIT as nat);
    assert(title_plays(title, file)->0.playlist == sets[k].1);
    assert(registers(titles[i].object@, file, sets[k].1));
}

/// A title that plays a playlist given as an immediate value registers it.
pub proof fn law_titles_play_immediate_numbers(
    titles: Seq<Title>,
    i: int,
    file: MovieObjectFile,
    n: u32,
)
    requires
        0 <= i < titles.len(),
        starts_with_play(titles[i], file),
        first_instruction(titles[i], file)->0.imm_op1,
        0 < first_instruction(titles[i], file)->0.dst < 65535,
    ensures
        registers(titles[i].object@, file, n) <==> n == first_instruction(titles[i], file)->0.dst,
        any_registers(titles, file, first_instruction(titles[i], file)->0.dst),
{
    let k = titles[i].object@->id_ref as int;
    let program = file.objects@[k].instructions@;
    law_play_ends_run(program, 0, seeded(file), Set::empty(), VM_STEP_LIMIT as nat);
    assert(registers(titles[i].object@, file, first_instruction(titles[i], file)->0.dst));
}

/// A playlist is registered exactly if one of the titles registers it, and a
/// title is missing exactly if one of them starts a movie object that plays
/// nothing.
pub proof fn law_any_title_counts(titles: Seq<Title>, title: Title, file: MovieObjectFile, n: u32)
    ensures
        !any_registers(Seq::empty(), file, n),
        !any_unresolved(Seq::empty(), file),
        any_registers(titles.push(title), file, n) <==> any_registers(titles, file, n)
            || registers(title.object@, file, n),
        any_unresolved(titles.push(title), file) <==> any_unresolved(titles, file) || unresolved(
            title.object@,
            file,
        ),
        !(registers(title.object@, file, n) && unresolved(title.object@, file)),
{
    let now = titles.push(title);
    if any_registers(titles, file, n) {
        let i = choose|i: int|
            0 <= i < titles.len() && registers(#[trigger] titles[i].object@, file, n);
        assert(now[i] == titles[i]);
    }
    if any_unresolved(titles, file) {
        let i = choose|i: int|
            0 <= i < titles.len() && unresolved(#[trigger] titles[i].object@, file);
        assert(now[i] == titles[i]);
    }
    assert(now[titles.len() as int] == title);
    if any_registers(now, file, n) && !registers(title.object@, file, n) {
        let i = choose|i: int| 0 <= i < now.len() && registers(#[trigger] now[i].object@, file, n);
        assert(now[i] == titles[i]);
    }
    if any_unresolved(now, file) && !unresolved(title.object@, file) {
        let i = choose|i: int| 0 <= i < now.len() && unresolved(#[trigger] now[i].object@, file);
        assert(now[i] == titles[i]);
    }
}

/// A dispatch table plays the playlists of its cases, and no others.
pub proof fn law_dispatched_playlists(table: DispatchTable, n: u32)
    ensures
        !dispatches(None, n),
        dispatches(Some(&table), n) <==> exists|i: int|
            0 <= i < table.cases@.len() && (#[trigger] table.cases@[i]).1 == n,
{
}

/// What a title starts is what its contents say.
pub proof fn law_object_contents(o: ObjectType)
    ensures
        o matches ObjectType::Hdmv { playback_type, id_ref } ==> o@ == (ObjectModel::Hdmv {
            playback_type,
            id_ref,
        }),
        o matches ObjectType::Bdj { playback_type, name } ==> o@ == (ObjectModel::Bdj {
            playback_type,
            name: name@,
        }),
{
}

/// What the errors say.
pub proof fn law_messages(e: IndexError, list: Seq<Title>, i: int)
    ensures
        e matches IndexError::TooSmall { size } ==> e.text() == "file too small ("@ + decimal(
            size as nat,
        ) + " bytes, need at least 16)"@,
        e matches IndexError::InvalidMagic { found } ==> e.text()
            == "invalid magic: expected \"INDX\", got "@ + bytes_text(found@),
        e matches IndexError::UnexpectedEof { offset, needed, available } ==> e.text() == eof_text(
            CursorError { offset, needed, available },
        ),
        titles_of(list).len() == list.len(),
        0 <= i < list.len() ==> titles_of(list)[i] == (list[i].access_type, list[i].object@),
{
}

} // verus!
