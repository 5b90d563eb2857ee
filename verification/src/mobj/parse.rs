//! Decoding of `MovieObject.bdmv` and of single instructions.
use vstd::prelude::*;
use vstd::string::*;

use super::{
    Instruction, MobjError, MovieObject, MovieObjectFile, BRANCH_GOTO, BRANCH_JUMP, BRANCH_PLAY,
    GRP_BRANCH, GRP_CMP, GRP_SET, PSR_FLAG, SET_BUTTON_PAGE_OPT,
};
use crate::cursor::{
    be16, be32, fields, get_u16, get_u32, items, lemma_items_err, Cursor, CursorError, Parsed,
};
use crate::nav::NavigationCommand;
use crate::text::{concat3, decimal, to_decimal};

pub mod laws;

verus! {

/// The bits of `word` from bit `shift` up that `mask` selects.
pub open spec fn bits(word: u32, shift: u32, mask: u32) -> u8 {
    ((word >> shift) & mask) as u8
}

/// Whether bit `shift` of `word` is set.
pub open spec fn flag(word: u32, shift: u32) -> bool {
    (word >> shift) & 1 != 0
}

/// The instruction that the three words of a 12-byte record encode.
pub open spec fn decode(word: u32, dst: u32, src: u32) -> Instruction {
    Instruction {
        op_cnt: bits(word, 29, 0x07),
        group: bits(word, 27, 0x03),
        sub_group: bits(word, 24, 0x07),
        imm_op1: flag(word, 23),
        imm_op2: flag(word, 22),
        branch_opt: bits(word, 16, 0x0F),
        cmp_opt: bits(word, 8, 0x0F),
        set_opt: bits(word, 0, 0x1F),
        dst,
        src,
    }
}

/// The instruction that a navigation command stands for.
pub open spec fn instruction_of(cmd: NavigationCommand) -> Instruction {
    match cmd {
        NavigationCommand::PlayPl { playlist, branch_opt, mark_or_pi } => Instruction {
            op_cnt: if branch_opt == 0 { 1 } else { 2 },
            group: GRP_BRANCH,
            sub_group: BRANCH_PLAY,
            imm_op1: true,
            imm_op2: branch_opt != 0,
            branch_opt,
            cmp_opt: 0,
            set_opt: 0,
            dst: widen(playlist),
            src: mark_or_pi,
        },
        NavigationCommand::SetGpr { register, value } => Instruction {
            op_cnt: 2,
            group: GRP_SET,
            sub_group: 0,
            imm_op1: false,
            imm_op2: true,
            branch_opt: 0,
            cmp_opt: 0,
            set_opt: 0x01,
            dst: register,
            src: value,
        },
        NavigationCommand::GotoMobj { object_id } => Instruction {
            op_cnt: 1,
            group: GRP_BRANCH,
            sub_group: BRANCH_JUMP,
            imm_op1: true,
            imm_op2: false,
            branch_opt: 0x01,
            cmp_opt: 0,
            set_opt: 0,
            dst: object_id,
            src: 0,
        },
        NavigationCommand::Other { opcode, dst, src } => decode(opcode, dst, src),
    }
}

/// The program that a button's commands stand for.
pub open spec fn program_of(commands: Seq<NavigationCommand>) -> Seq<Instruction> {
    commands.map_values(|c: NavigationCommand| instruction_of(c))
}

/// A 16-bit number as a 32-bit one.
pub open spec fn widen(x: u16) -> u32 {
    x as u32
}

fn bit_field(word: u32, shift: u32, mask: u32) -> (field: u8)
    requires
        shift < 32,
    ensures
        field == bits(word, shift, mask),
{
    ((word >> shift) & mask) as u8
}

fn bit_flag(word: u32, shift: u32) -> (set: bool)
    requires
        shift < 32,
    ensures
        set == flag(word, shift),
{
    (word >> shift) & 1 != 0
}

fn widen_u16(x: u16) -> (y: u32)
    ensures
        y == widen(x),
{
    x as u32
}

/// Decodes the three words of a 12-byte instruction record.
pub fn decode_instruction(word: u32, dst: u32, src: u32) -> (insn: Instruction)
    ensures
        insn == decode(word, dst, src),
{
    Instruction {
        op_cnt: bit_field(word, 29, 0x07),
        group: bit_field(word, 27, 0x03),
        sub_group: bit_field(word, 24, 0x07),
        imm_op1: bit_flag(word, 23),
        imm_op2: bit_flag(word, 22),
        branch_opt: bit_field(word, 16, 0x0F),
        cmp_opt: bit_field(word, 8, 0x0F),
        set_opt: bit_field(word, 0, 0x1F),
        dst,
        src,
    }
}

/// Converts a navigation command to the instruction that the machine runs.
#[must_use]
pub fn command_to_instruction(cmd: &NavigationCommand) -> (insn: Instruction)
    ensures
        insn == instruction_of(*cmd),
{
    match *cmd {
        NavigationCommand::PlayPl { playlist, branch_opt, mark_or_pi } => Instruction {
            op_cnt: if branch_opt == 0 {
                1
            } else {
                2
            },
            group: GRP_BRANCH,
            sub_group: BRANCH_PLAY,
            imm_op1: true,
            imm_op2: branch_opt != 0,
            branch_opt,
            cmp_opt: 0,
            set_opt: 0,
            dst: widen_u16(playlist),
            src: mark_or_pi,
        },
        NavigationCommand::SetGpr { register, value } => Instruction {
            op_cnt: 2,
            group: GRP_SET,
            sub_group: 0,
            imm_op1: false,
            imm_op2: true,
            branch_opt: 0,
            cmp_opt: 0,
            set_opt: 0x01,
            dst: register,
            src: value,
        },
        NavigationCommand::GotoMobj { object_id } => Instruction {
            op_cnt: 1,
            group: GRP_BRANCH,
            sub_group: BRANCH_JUMP,
            imm_op1: true,
            imm_op2: false,
            branch_opt: 0x01,
            cmp_opt: 0,
            set_opt: 0,
            dst: object_id,
            src: 0,
        },
        NavigationCommand::Other { opcode, dst, src } => decode_instruction(opcode, dst, src),
    }
}

// ---------------------------------------------------------------------------
// The file
// ---------------------------------------------------------------------------

/// The first four bytes of the file: `MOBJ`.
pub open spec fn magic() -> Seq<u8> {
    seq![0x4D, 0x4F, 0x42, 0x4A]
}

/// The fields of an instruction record: three words.
pub open spec fn record_layout() -> Seq<usize> {
    seq![4, 4, 4]
}

/// The fields of an object's header: flags and the number of instructions.
pub open spec fn object_layout() -> Seq<usize> {
    seq![2, 2]
}

/// The instruction records of a file.
pub open spec fn record_parser(d: Seq<u8>) -> spec_fn(int) -> Parsed<Instruction> {
    |p: int|
        match fields(d.len(), p, record_layout(), 0) {
            Ok(end) => Ok((decode(be32(d, p), be32(d, p + 4), be32(d, p + 8)), end)),
            Err(e) => Err(e),
        }
}

/// The objects of a file: a header, and as many instructions as it says.
pub open spec fn object_parser(d: Seq<u8>) -> spec_fn(int) -> Parsed<Seq<Instruction>> {
    |p: int|
        match fields(d.len(), p, object_layout(), 0) {
            Ok(start) => items(record_parser(d), start, be16(d, p + 2) as int),
            Err(e) => Err(e),
        }
}

/// The objects of a file, whose number stands at byte 48.
pub open spec fn file_objects(d: Seq<u8>) -> Parsed<Seq<Seq<Instruction>>> {
    items(object_parser(d), 50, be16(d, 48) as int)
}

impl View for MovieObject {
    type V = Seq<Instruction>;

    open spec fn view(&self) -> Seq<Instruction> {
        self.instructions@
    }
}

impl View for MovieObjectFile {
    type V = Seq<Seq<Instruction>>;

    open spec fn view(&self) -> Seq<Seq<Instruction>> {
        self.objects@.map_values(|o: MovieObject| o@)
    }
}

fn parse_instruction(r: &mut Cursor<'_>) -> (result: Result<Instruction, MobjError>)
    requires
        old(r).pos <= old(r).bytes().len(),
    ensures
        final(r).bytes() == old(r).bytes(),
        final(r).pos <= final(r).bytes().len(),
        match record_parser(old(r).bytes())(old(r).pos as int) {
            Ok((insn, end)) => result == Ok::<Instruction, MobjError>(insn) && final(r).pos == end,
            Err(e) => result == Err::<Instruction, MobjError>(MobjError::eof(e)),
        },
{
    let layout: [usize; 3] = [4, 4, 4];
    proof {
        assert(layout@ =~= record_layout());
        reveal_with_fuel(fields, 5);
    }
    match r.skip_fields(&layout) {
        Ok(p) => Ok(
            decode_instruction(get_u32(r.data, p), get_u32(r.data, p + 4), get_u32(r.data, p + 8)),
        ),
        Err(e) => Err(MobjError::from(e)),
    }
}

fn parse_object(r: &mut Cursor<'_>) -> (result: Result<MovieObject, MobjError>)
    requires
        old(r).pos <= old(r).bytes().len(),
    ensures
        final(r).bytes() == old(r).bytes(),
        final(r).pos <= final(r).bytes().len(),
        match object_parser(old(r).bytes())(old(r).pos as int) {
            Ok((instrs, end)) => result matches Ok(o) && o@ == instrs && final(r).pos == end,
            Err(e) => result == Err::<MovieObject, MobjError>(MobjError::eof(e)),
        },
{
    let ghost d = r.bytes();
    let layout: [usize; 2] = [2, 2];
    proof {
        assert(layout@ =~= object_layout());
        reveal_with_fuel(fields, 4);
    }
    let count: u16 = match r.skip_fields(&layout) {
        Ok(p) => get_u16(r.data, p + 2),
        Err(e) => {
            return Err(MobjError::from(e));
        },
    };
    let ghost start = r.pos as int;
    let mut instructions: Vec<Instruction> = Vec::new();
    let mut i: u16 = 0;
    while i < count
        invariant
            i <= count,
            d == old(r).bytes(),
            r.bytes() == d,
            r.pos <= d.len(),
            items(record_parser(d), start, i as int) == Ok::<(Seq<Instruction>, int), CursorError>(
                (instructions@, r.pos as int),
            ),
            object_parser(old(r).bytes())(old(r).pos as int) == items(
                record_parser(d),
                start,
                count as int,
            ),
        decreases count - i,
    {
        match parse_instruction(r) {
            Ok(insn) => {
                instructions.push(insn);
            },
            Err(e) => {
                proof {
                    lemma_items_err(record_parser(d), start, i + 1, count as int);
                }
                return Err(e);
            },
        }
        i = i + 1;
    }
    Ok(MovieObject { instructions })
}

/// Parses a `MovieObject.bdmv` file.
pub fn parse(data: &[u8]) -> (result: Result<MovieObjectFile, MobjError>)
    ensures
        data@.len() < 50 ==> result == Err::<MovieObjectFile, MobjError>(
            MobjError::TooSmall { size: data@.len() as usize },
        ),
        data@.len() >= 50 && data@.take(4) != magic() ==> (result matches Err(
            MobjError::InvalidMagic { found },
        ) && found@ == data@.take(4)),
        data@.len() >= 50 && data@.take(4) == magic() ==> match file_objects(data@) {
            Ok((objects, _)) => result matches Ok(file) && file@ == objects,
            Err(e) => result == Err::<MovieObjectFile, MobjError>(MobjError::eof(e)),
        },
{
    if data.len() < 50 {
        return Err(MobjError::TooSmall { size: data.len() });
    }
    let found: [u8; 4] = [data[0], data[1], data[2], data[3]];
    proof {
        assert(found@ =~= data@.take(4));
    }
    if found[0] != 0x4D || found[1] != 0x4F || found[2] != 0x42 || found[3] != 0x4A {
        return Err(MobjError::InvalidMagic { found });
    }
    proof {
        assert(found@ =~= magic());
    }
    let ghost d = data@;
    let count: u16 = get_u16(data, 48);
    let mut r: Cursor = Cursor::new(data);
    r.pos = 50;
    let mut objects: Vec<MovieObject> = Vec::new();
    proof {
        assert(objects@.map_values(|o: MovieObject| o@) =~= seq![]);
    }
    let mut i: u16 = 0;
    while i < count
        invariant
            i <= count,
            r.bytes() == d,
            r.pos <= d.len(),
            items(object_parser(d), 50, i as int) == Ok::<(Seq<Seq<Instruction>>, int), CursorError>(
                (objects@.map_values(|o: MovieObject| o@), r.pos as int),
            ),
            file_objects(d) == items(object_parser(d), 50, count as int),
            d == data@,
            d.len() >= 50,
            d.take(4) == magic(),
        decreases count - i,
    {
        let ghost before = objects@;
        match parse_object(&mut r) {
            Ok(object) => {
                objects.push(object);
                proof {
                    assert(objects@.map_values(|o: MovieObject| o@) =~= before.map_values(
                        |o: MovieObject| o@,
                    ).push(object@));
                }
            },
            Err(e) => {
                proof {
                    lemma_items_err(object_parser(d), 50, i + 1, count as int);
                }
                return Err(e);
            },
        }
        i = i + 1;
    }
    Ok(MovieObjectFile { objects })
}

// ---------------------------------------------------------------------------
// Disassembly
// ---------------------------------------------------------------------------

/// An operand as text: a number, or the register that it names.
pub open spec fn operand_text(immediate: bool, raw: u32) -> Seq<char> {
    if immediate {
        decimal(raw as nat)
    } else if raw & PSR_FLAG != 0 {
        "PSR["@ + decimal((raw & !PSR_FLAG) as nat) + "]"@
    } else {
        "GPR["@ + decimal(raw as nat) + "]"@
    }
}

/// A byte in decimal.
pub open spec fn byte_text(x: u8) -> Seq<char> {
    decimal(x as nat)
}

/// The operator of a comparison.
pub open spec fn comparison_text(opt: u8) -> Seq<char> {
    if opt == 0x02 {
        "=="@
    } else if opt == 0x03 {
        "!="@
    } else if opt == 0x04 {
        ">="@
    } else if opt == 0x05 {
        ">"@
    } else if opt == 0x06 {
        "<="@
    } else if opt == 0x07 {
        "<"@
    } else {
        "?"@
    }
}

/// What stands between the operands of a set instruction, and after them.
pub open spec fn set_text(opt: u8) -> Option<(Seq<char>, Seq<char>)> {
    if opt == 0x01 {
        Some((" = "@, ""@))
    } else if opt == 0x02 {
        Some((" <=> "@, ""@))
    } else if opt == 0x03 {
        Some((" += "@, ""@))
    } else if opt == 0x04 {
        Some((" -= "@, ""@))
    } else if opt == 0x05 {
        Some((" *= "@, ""@))
    } else if opt == 0x06 {
        Some((" /= "@, ""@))
    } else if opt == 0x07 {
        Some((" %= "@, ""@))
    } else if opt == 0x08 {
        Some((" = rand("@, ")"@))
    } else if opt == 0x09 {
        Some((" &= "@, ""@))
    } else if opt == 0x0A {
        Some((" |= "@, ""@))
    } else if opt == 0x0B {
        Some((" ^= "@, ""@))
    } else if opt == 0x0C {
        Some((" |= (1 << "@, ")"@))
    } else if opt == 0x0D {
        Some((" &= ~(1 << "@, ")"@))
    } else if opt == 0x0E {
        Some((" <<= "@, ""@))
    } else if opt == 0x0F {
        Some((" >>= "@, ""@))
    } else {
        None
    }
}

/// A branch instruction as text.
pub open spec fn branch_text(insn: Instruction) -> Seq<char> {
    let dst = operand_text(insn.imm_op1, insn.dst);
    let src = operand_text(insn.imm_op2, insn.src);
    let opt = insn.branch_opt;
    if insn.sub_group == BRANCH_GOTO {
        if opt == 0 {
            "NOP"@
        } else if opt == 1 {
            "GOTO "@ + dst
        } else if opt == 2 {
            "BREAK"@
        } else {
            "BRANCH(opt="@ + byte_text(opt) + ")"@
        }
    } else if insn.sub_group == BRANCH_JUMP {
        "JumpMobj("@ + dst + ")"@
    } else if insn.sub_group == BRANCH_PLAY {
        if opt == 0 {
            "PlayPl("@ + dst + ")"@
        } else if opt == 1 {
            "PlayPlatMK("@ + dst + ", mark="@ + src + ")"@
        } else if opt == 2 {
            "PlayPlatPI("@ + dst + ", pi="@ + src + ")"@
        } else {
            "PlayPl("@ + dst + ", opt="@ + byte_text(opt) + ")"@
        }
    } else {
        "BRANCH(sub="@ + byte_text(insn.sub_group) + ", opt="@ + byte_text(opt) + ")"@
    }
}

/// An instruction as text.
pub open spec fn instruction_text(insn: Instruction) -> Seq<char> {
    let dst = operand_text(insn.imm_op1, insn.dst);
    let src = operand_text(insn.imm_op2, insn.src);
    if insn.group == GRP_BRANCH {
        branch_text(insn)
    } else if insn.group == GRP_CMP {
        "CMP "@ + dst + " "@ + comparison_text(insn.cmp_opt) + " "@ + src
    } else if insn.group == GRP_SET && insn.sub_group == 1 {
        if insn.set_opt == SET_BUTTON_PAGE_OPT {
            "SET_BUTTON_PAGE("@ + dst + ", "@ + src + ")"@
        } else {
            "SETSYSTEM(opt="@ + byte_text(insn.set_opt) + ", "@ + dst + ", "@ + src + ")"@
        }
    } else if insn.group == GRP_SET {
        let reg = operand_text(false, insn.dst);
        match set_text(insn.set_opt) {
            Some((between, end)) => reg + between + src + end,
            None => "SET(opt="@ + byte_text(insn.set_opt) + ", "@ + reg + ", "@ + src + ")"@,
        }
    } else {
        "UNKNOWN(grp="@ + byte_text(insn.group) + ", sub="@ + byte_text(insn.sub_group) + ")"@
    }
}

fn format_operand(immediate: bool, raw: u32) -> (text: String)
    ensures
        text@ == operand_text(immediate, raw),
{
    if immediate {
        to_decimal(raw as u64)
    } else if raw & PSR_FLAG != 0 {
        concat3("PSR[", to_decimal((raw & !PSR_FLAG) as u64).as_str(), "]")
    } else {
        concat3("GPR[", to_decimal(raw as u64).as_str(), "]")
    }
}

fn format_byte(x: u8) -> (text: String)
    ensures
        text@ == byte_text(x),
{
    to_decimal(x as u64)
}

fn comparison_sign(opt: u8) -> (text: &'static str)
    ensures
        text@ == comparison_text(opt),
{
    match opt {
        0x02 => "==",
        0x03 => "!=",
        0x04 => ">=",
        0x05 => ">",
        0x06 => "<=",
        0x07 => "<",
        _ => "?",
    }
}

fn set_signs(opt: u8) -> (signs: Option<(&'static str, &'static str)>)
    ensures
        match set_text(opt) {
            Some((between, end)) => signs matches Some(s) && s.0@ == between && s.1@ == end,
            None => signs is None,
        },
{
    match opt {
        0x01 => Some((" = ", "")),
        0x02 => Some((" <=> ", "")),
        0x03 => Some((" += ", "")),
        0x04 => Some((" -= ", "")),
        0x05 => Some((" *= ", "")),
        0x06 => Some((" /= ", "")),
        0x07 => Some((" %= ", "")),
        0x08 => Some((" = rand(", ")")),
        0x09 => Some((" &= ", "")),
        0x0A => Some((" |= ", "")),
        0x0B => Some((" ^= ", "")),
        0x0C => Some((" |= (1 << ", ")")),
        0x0D => Some((" &= ~(1 << ", ")")),
        0x0E => Some((" <<= ", "")),
        0x0F => Some((" >>= ", "")),
        _ => None,
    }
}

fn format_branch(insn: &Instruction) -> (text: String)
    ensures
        text@ == branch_text(*insn),
{
    let dst: String = format_operand(insn.imm_op1, insn.dst);
    let src: String = format_operand(insn.imm_op2, insn.src);
    let opt: u8 = insn.branch_opt;
    if insn.sub_group == BRANCH_GOTO {
        if opt == 0 {
            String::from_str("NOP")
        } else if opt == 1 {
            let mut text: String = String::from_str("GOTO ");
            text.append(dst.as_str());
            text
        } else if opt == 2 {
            String::from_str("BREAK")
        } else {
            concat3("BRANCH(opt=", format_byte(opt).as_str(), ")")
        }
    } else if insn.sub_group == BRANCH_JUMP {
        concat3("JumpMobj(", dst.as_str(), ")")
    } else if insn.sub_group == BRANCH_PLAY {
        if opt == 0 {
            concat3("PlayPl(", dst.as_str(), ")")
        } else if opt == 1 {
            let mut text: String = concat3("PlayPlatMK(", dst.as_str(), ", mark=");
            text.append(src.as_str());
            text.append(")");
            text
        } else if opt == 2 {
            let mut text: String = concat3("PlayPlatPI(", dst.as_str(), ", pi=");
            text.append(src.as_str());
            text.append(")");
            text
        } else {
            let mut text: String = concat3("PlayPl(", dst.as_str(), ", opt=");
            text.append(format_byte(opt).as_str());
            text.append(")");
            text
        }
    } else {
        let mut text: String = concat3(
            "BRANCH(sub=",
            format_byte(insn.sub_group).as_str(),
            ", opt=",
        );
        text.append(format_byte(opt).as_str());
        text.append(")");
        text
    }
}

/// Writes an instruction as text.
#[must_use]
pub fn format_instruction(insn: &Instruction) -> (text: String)
    ensures
        text@ == instruction_text(*insn),
{
    let dst: String = format_operand(insn.imm_op1, insn.dst);
    let src: String = format_operand(insn.imm_op2, insn.src);
    if insn.group == GRP_BRANCH {
        format_branch(insn)
    } else if insn.group == GRP_CMP {
        let mut text: String = concat3("CMP ", dst.as_str(), " ");
        text.append(comparison_sign(insn.cmp_opt));
        text.append(" ");
        text.append(src.as_str());
        text
    } else if insn.group == GRP_SET && insn.sub_group == 1 {
        let mut text: String = if insn.set_opt == SET_BUTTON_PAGE_OPT {
            String::from_str("SET_BUTTON_PAGE(")
        } else {
            concat3("SETSYSTEM(opt=", format_byte(insn.set_opt).as_str(), ", ")
        };
        text.append(dst.as_str());
        text.append(", ");
        text.append(src.as_str());
        text.append(")");
        text
    } else if insn.group == GRP_SET {
        let reg: String = format_operand(false, insn.dst);
        match set_signs(insn.set_opt) {
            Some((between, end)) => {
                let mut text: String = concat3(reg.as_str(), between, src.as_str());
                text.append(end);
                text
            },
            None => {
                let mut text: String = concat3(
                    "SET(opt=",
                    format_byte(insn.set_opt).as_str(),
                    ", ",
                );
                text.append(reg.as_str());
                text.append(", ");
                text.append(src.as_str());
                text.append(")");
                text
            },
        }
    } else {
        let mut text: String = concat3("UNKNOWN(grp=", format_byte(insn.group).as_str(), ", sub=");
        text.append(format_byte(insn.sub_group).as_str());
        text.append(")");
        text
    }
}

} // verus!
