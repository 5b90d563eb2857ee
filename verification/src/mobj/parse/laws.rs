//! How movie object files and commands make instructions, and how these read.
use vstd::prelude::*;
use vstd::string::*;

use super::{
    bits, comparison_text, decode, file_objects, flag, instruction_of, instruction_text, magic,
    object_layout, object_parser, operand_text, program_of, record_layout, record_parser, set_text,
};
use crate::cursor::laws::{extent, law_equal_items, law_items_follow, law_items_read, lemma_fields};
use crate::cursor::{be32, eof_text, CursorError};
use crate::mobj::vm::laws::lemma_flag_bit;
use crate::mobj::{Instruction, MobjError, MovieObject, MovieObjectFile};
use crate::nav::NavigationCommand;
use crate::text::{bytes_text, decimal};

verus! {

proof fn lemma_bit_fields(word: u32)
    ensures
        bits(word, 29, 0x07) == word / 0x2000_0000,
        bits(word, 27, 0x03) == word / 0x800_0000 % 4,
        bits(word, 24, 0x07) == word / 0x100_0000 % 8,
        flag(word, 23) <==> word / 0x80_0000 % 2 == 1,
        flag(word, 22) <==> word / 0x40_0000 % 2 == 1,
        bits(word, 16, 0x0F) == word / 0x1_0000 % 16,
        bits(word, 8, 0x0F) == word / 0x100 % 16,
        bits(word, 0, 0x1F) == word % 32,
{
    assert({
        &&& ((word >> 29u32) & 0x07u32) as u8 == word / 0x2000_0000u32
        &&& ((word >> 27u32) & 0x03u32) as u8 == word / 0x800_0000u32 % 4u32
        &&& ((word >> 24u32) & 0x07u32) as u8 == word / 0x100_0000u32 % 8u32
        &&& (word >> 23u32) & 1u32 != 0u32 <==> word / 0x80_0000u32 % 2u32 == 1u32
        &&& (word >> 22u32) & 1u32 != 0u32 <==> word / 0x40_0000u32 % 2u32 == 1u32
        &&& ((word >> 16u32) & 0x0Fu32) as u8 == word / 0x1_0000u32 % 16u32
        &&& ((word >> 8u32) & 0x0Fu32) as u8 == word / 0x100u32 % 16u32
        &&& ((word >> 0u32) & 0x1Fu32) as u8 == word % 32u32
    }) by (bit_vector);
}

/// Which bits of an instruction word hold what: from the top three of operand
/// count, two of group, three of sub-group, one for each operand that is
/// immediate, and then, right-aligned in the three lower bytes, the branch
/// option, the comparison and the set operation.
pub proof fn law_word_fields(word: u32, dst: u32, src: u32)
    ensures
        ({
            let insn = decode(word, dst, src);
            &&& insn.op_cnt == word / 0x2000_0000
            &&& insn.group == word / 0x800_0000 % 4
            &&& insn.sub_group == word / 0x100_0000 % 8
            &&& insn.imm_op1 <==> word / 0x80_0000 % 2 == 1
            &&& insn.imm_op2 <==> word / 0x40_0000 % 2 == 1
            &&& insn.branch_opt == word / 0x1_0000 % 16
            &&& insn.cmp_opt == word / 0x100 % 16
            &&& insn.set_opt == word % 32
            &&& insn.dst == dst
            &&& insn.src == src
        }),
{
    lemma_bit_fields(word);
}

/// An instruction record has twelve bytes: the word and the two operands.
pub proof fn law_records_lie(d: Seq<u8>, p: int)
    requires
        0 <= p <= d.len(),
    ensures
        record_parser(d)(p) is Ok <==> p + 12 <= d.len(),
        record_parser(d)(p) matches Ok((insn, end)) ==> {
            &&& end == p + 12
            &&& insn == decode(be32(d, p), be32(d, p + 4), be32(d, p + 8))
        },
{
    assert(extent(record_layout(), 0, record_layout().len() as int) == 12) by {
        reveal_with_fuel(extent, 4);
    }
    lemma_fields(d.len(), p, record_layout(), 12);
}

/// An object has a head of four bytes, of which the last two count its
/// instructions; these follow, twelve bytes each.
pub proof fn law_objects_lie(d: Seq<u8>, p: int)
    requires
        0 <= p <= d.len(),
    ensures
        ({
            let count = 256 * d[p + 2] + d[p + 3];
            &&& object_parser(d)(p) is Ok <==> p + 4 <= d.len() && p + 4 + 12 * count <= d.len()
            &&& object_parser(d)(p) matches Ok((instrs, end)) ==> {
                &&& end == p + 4 + 12 * count
                &&& instrs.len() == count
                &&& forall|k: int|
                    0 <= k < count ==> #[trigger] instrs[k] == decode(
                        be32(d, p + 4 + 12 * k),
                        be32(d, p + 8 + 12 * k),
                        be32(d, p + 12 + 12 * k),
                    )
            }
        }),
{
    assert(extent(object_layout(), 0, object_layout().len() as int) == 4) by {
        reveal_with_fuel(extent, 3);
    }
    lemma_fields(d.len(), p, object_layout(), 4);
    if p + 4 <= d.len() {
        let count = 256 * d[p + 2] + d[p + 3];
        assert forall|q: int| 0 <= q <= d.len() implies (#[trigger] record_parser(d)(q) is Ok <==> q
            + 12 <= d.len()) && (record_parser(d)(q) is Ok ==> record_parser(d)(q)->Ok_0.1 == q
            + 12) by {
            law_records_lie(d, q);
        }
        law_equal_items(record_parser(d), d.len(), p + 4, 12, count);
        if let Ok((instrs, end)) = object_parser(d)(p) {
            assert forall|k: int| 0 <= k < count implies #[trigger] instrs[k] == decode(
                be32(d, p + 4 + 12 * k),
                be32(d, p + 8 + 12 * k),
                be32(d, p + 12 + 12 * k),
            ) by {
                assert(instrs[k] == record_parser(d)(p + 4 + k * 12)->Ok_0.0);
                law_records_lie(d, p + 4 + 12 * k);
            }
        }
    }
}

/// The objects of a file start at byte 50 and follow one behind the other.
/// Their number stands in bytes 48 and 49.
pub proof fn law_file_objects_lie(d: Seq<u8>) -> (at: Seq<int>)
    requires
        d.len() >= 50,
        file_objects(d) is Ok,
    ensures
        ({
            let list = file_objects(d)->Ok_0.0;
            &&& list.len() == 256 * d[48] + d[49]
            &&& at.len() == list.len() + 1
            &&& at[0] == 50
            &&& forall|k: int|
                0 <= k < list.len() ==> #[trigger] object_parser(d)(at[k]) == Ok::<
                    (Seq<Instruction>, int),
                    CursorError,
                >((list[k], at[k + 1]))
        }),
{
    law_items_follow(object_parser(d), 50, 256 * d[48] + d[49])
}

/// A file is read if its objects can be read one behind the other.
pub proof fn law_file_objects_read(d: Seq<u8>, list: Seq<Seq<Instruction>>, at: Seq<int>)
    requires
        d.len() >= 50,
        list.len() == 256 * d[48] + d[49],
        at.len() == list.len() + 1,
        at[0] == 50,
        forall|k: int|
            0 <= k < list.len() ==> #[trigger] object_parser(d)(at[k]) == Ok::<
                (Seq<Instruction>, int),
                CursorError,
            >((list[k], at[k + 1])),
    ensures
        file_objects(d) == Ok::<(Seq<Seq<Instruction>>, int), CursorError>(
            (list, at[list.len() as int]),
        ),
{
    law_items_read(object_parser(d), list, at, list.len() as int);
    assert(list.take(list.len() as int) =~= list);
}

/// The first four bytes are `MOBJ`.
pub proof fn law_magic(d: Seq<u8>)
    requires
        d.len() >= 4,
    ensures
        d.take(4) == magic() <==> d[0] == 0x4D && d[1] == 0x4F && d[2] == 0x42 && d[3] == 0x4A,
{
    let head = d.take(4);
    assert(head[0] == d[0] && head[1] == d[1] && head[2] == d[2] && head[3] == d[3]);
    if d[0] == 0x4D && d[1] == 0x4F && d[2] == 0x42 && d[3] == 0x4A {
        assert(head =~= magic());
    }
}

/// What commands stand for: a play instruction with an immediate playlist, and
/// with an immediate mark or play item if the option asks for one; a set
/// instruction; a jump; and any other instruction as its words say.
pub proof fn law_commands_mean(c: NavigationCommand)
    ensures
        c matches NavigationCommand::PlayPl { playlist, branch_opt, mark_or_pi } ==> {
            let insn = instruction_of(c);
            &&& insn.group == 0
            &&& insn.sub_group == 2
            &&& insn.imm_op1
            &&& insn.dst == playlist
            &&& insn.branch_opt == branch_opt
            &&& insn.imm_op2 == (branch_opt != 0)
            &&& insn.src == mark_or_pi
            &&& branch_opt == 0 ==> insn.op_cnt == 1
            &&& branch_opt != 0 ==> insn.op_cnt == 2
        },
        c matches NavigationCommand::SetGpr { register, value } ==> {
            let insn = instruction_of(c);
            &&& insn.group == 2
            &&& insn.sub_group == 0
            &&& insn.set_opt == 1
            &&& !insn.imm_op1
            &&& insn.imm_op2
            &&& insn.dst == register
            &&& insn.src == value
            &&& insn.op_cnt == 2
        },
        c matches NavigationCommand::GotoMobj { object_id } ==> {
            let insn = instruction_of(c);
            &&& insn.group == 0
            &&& insn.sub_group == 1
            &&& insn.imm_op1
            &&& insn.branch_opt == 1
            &&& insn.dst == object_id
            &&& insn.op_cnt == 1
        },
        c matches NavigationCommand::Other { opcode, dst, src } ==> instruction_of(c) == decode(
            opcode,
            dst,
            src,
        ),
{
}

/// The program of a button has one instruction for each command, in order.
pub proof fn law_programs_follow_commands(commands: Seq<NavigationCommand>)
    ensures
        program_of(commands).len() == commands.len(),
        forall|i: int|
            0 <= i < commands.len() ==> #[trigger] program_of(commands)[i] == instruction_of(
                commands[i],
            ),
{
}

/// Operands read as numbers if they are immediate, else as registers: status
/// registers have numbers from 2^31 on, and read without that.
pub proof fn law_operands_read(immediate: bool, raw: u32)
    ensures
        immediate ==> operand_text(immediate, raw) == decimal(raw as nat),
        !immediate && raw >= 0x8000_0000 ==> operand_text(immediate, raw) == "PSR["@ + decimal(
            (raw - 0x8000_0000) as nat,
        ) + "]"@,
        !immediate && raw < 0x8000_0000 ==> operand_text(immediate, raw) == "GPR["@ + decimal(
            raw as nat,
        ) + "]"@,
{
    lemma_flag_bit(raw);
}

/// Comparisons read as their operators, number by number.
pub proof fn law_comparisons_read(opt: u8)
    ensures
        comparison_text(2) == "=="@,
        comparison_text(3) == "!="@,
        comparison_text(4) == ">="@,
        comparison_text(5) == ">"@,
        comparison_text(6) == "<="@,
        comparison_text(7) == "<"@,
        opt < 2 || opt > 7 ==> comparison_text(opt) == "?"@,
{
}

/// Set operations read as assignments, number by number.
pub proof fn law_sets_read(opt: u8)
    ensures
        set_text(1) == Some((" = "@, ""@)),
        set_text(2) == Some((" <=> "@, ""@)),
        set_text(3) == Some((" += "@, ""@)),
        set_text(4) == Some((" -= "@, ""@)),
        set_text(5) == Some((" *= "@, ""@)),
        set_text(6) == Some((" /= "@, ""@)),
        set_text(7) == Some((" %= "@, ""@)),
        set_text(8) == Some((" = rand("@, ")"@)),
        set_text(9) == Some((" &= "@, ""@)),
        set_text(10) == Some((" |= "@, ""@)),
        set_text(11) == Some((" ^= "@, ""@)),
        set_text(12) == Some((" |= (1 << "@, ")"@)),
        set_text(13) == Some((" &= ~(1 << "@, ")"@)),
        set_text(14) == Some((" <<= "@, ""@)),
        set_text(15) == Some((" >>= "@, ""@)),
        opt == 0 || opt > 15 ==> set_text(opt) is None,
{
}

/// Branch instructions read as what they do, by sub-group and option.
pub proof fn law_branches_read(insn: Instruction)
    requires
        insn.group == 0,
    ensures
        ({
            let text = instruction_text(insn);
            let dst = operand_text(insn.imm_op1, insn.dst);
            let src = operand_text(insn.imm_op2, insn.src);
            let opt = insn.branch_opt;
            let number = decimal(opt as nat);
            &&& insn.sub_group == 0 && opt == 0 ==> text == "NOP"@
            &&& insn.sub_group == 0 && opt == 1 ==> text == "GOTO "@ + dst
            &&& insn.sub_group == 0 && opt == 2 ==> text == "BREAK"@
            &&& insn.sub_group == 0 && opt > 2 ==> text == "BRANCH(opt="@ + number + ")"@
            &&& insn.sub_group == 1 ==> text == "JumpMobj("@ + dst + ")"@
            &&& insn.sub_group == 2 && opt == 0 ==> text == "PlayPl("@ + dst + ")"@
            &&& insn.sub_group == 2 && opt == 1 ==> text == "PlayPlatMK("@ + dst + ", mark="@ + src
                + ")"@
            &&& insn.sub_group == 2 && opt == 2 ==> text == "PlayPlatPI("@ + dst + ", pi="@ + src
                + ")"@
            &&& insn.sub_group == 2 && opt > 2 ==> text == "PlayPl("@ + dst + ", opt="@ + number
                + ")"@
            &&& insn.sub_group > 2 ==> text == "BRANCH(sub="@ + decimal(insn.sub_group as nat)
                + ", opt="@ + number + ")"@
        }),
{
}

/// Compare instructions read as operand, operator and operand.
pub proof fn law_compare_instructions_read(insn: Instruction)
    requires
        insn.group == 1,
    ensures
        instruction_text(insn) == "CMP "@ + operand_text(insn.imm_op1, insn.dst) + " "@
            + comparison_text(insn.cmp_opt) + " "@ + operand_text(insn.imm_op2, insn.src),
{
}

/// Set instructions read as assignments to a register, those of sub-group 1
/// as system settings; instructions of any other group are unknown.
pub proof fn law_set_instructions_read(insn: Instruction)
    requires
        insn.group >= 2,
    ensures
        ({
            let text = instruction_text(insn);
            let dst = operand_text(insn.imm_op1, insn.dst);
            let src = operand_text(insn.imm_op2, insn.src);
            let register = operand_text(false, insn.dst);
            let number = decimal(insn.set_opt as nat);
            let words = set_text(insn.set_opt);
            &&& insn.group == 2 && insn.sub_group == 1 && insn.set_opt == 3 ==> text
                == "SET_BUTTON_PAGE("@ + dst + ", "@ + src + ")"@
            &&& insn.group == 2 && insn.sub_group == 1 && insn.set_opt != 3 ==> text
                == "SETSYSTEM(opt="@ + number + ", "@ + dst + ", "@ + src + ")"@
            &&& insn.group == 2 && insn.sub_group != 1 && words is None ==> text == "SET(opt="@
                + number + ", "@ + register + ", "@ + src + ")"@
            &&& insn.group == 2 && insn.sub_group != 1 ==> (words matches Some((between, end))
                ==> text == register + between + src + end)
            &&& insn.group > 2 ==> text == "UNKNOWN(grp="@ + decimal(insn.group as nat)
                + ", sub="@ + decimal(insn.sub_group as nat) + ")"@
        }),
{
}

/// What the errors say, and what objects and files hold.
pub proof fn law_messages(e: MobjError, o: MovieObject, file: MovieObjectFile, i: int)
    ensures
        e matches MobjError::TooSmall { size } ==> e.text() == "file too small ("@ + decimal(
            size as nat,
        ) + " bytes, need at least 50)"@,
        e matches MobjError::InvalidMagic { found } ==> e.text()
            == "invalid magic: expected \"MOBJ\", got "@ + bytes_text(found@),
        e matches MobjError::UnexpectedEof { offset, needed, available } ==> e.text() == eof_text(
            CursorError { offset, needed, available },
        ),
        o@ == o.instructions@,
        file@.len() == file.objects@.len(),
        0 <= i < file.objects@.len() ==> file@[i] == file.objects@[i]@,
{
}

} // verus!
