//! The HDMV machine: single instructions, runs and their texts.
use std::collections::{HashMap, HashSet};

use reliquary_bdmv::cursor::CursorError;
use reliquary_bdmv::mobj::parse::decode_instruction;
use reliquary_bdmv::mobj::vm::{
    execute_cmp, execute_from, execute_goto, execute_set, fetch_operand, trace_play_pls,
};
use reliquary_bdmv::mobj::{
    execute_button_commands, find_handler_pc, format_instruction, parse, run_mobj_vm,
    seed_gpr_state, ButtonEffect, Instruction, MobjError, MovieObject, MovieObjectFile, PlayTarget,
    PlayerContext, BRANCH_GOTO, BRANCH_JUMP, BRANCH_PLAY, GRP_BRANCH, GRP_CMP, GRP_SET, PSR_FLAG,
};
use reliquary_bdmv::nav::NavigationCommand;

fn insn(group: u8, sub_group: u8, opt: u8, imm: (bool, bool), dst: u32, src: u32) -> Instruction {
    Instruction {
        op_cnt: 2,
        group,
        sub_group,
        imm_op1: imm.0,
        imm_op2: imm.1,
        branch_opt: if group == GRP_BRANCH { opt } else { 0 },
        cmp_opt: if group == GRP_CMP { opt } else { 0 },
        set_opt: if group == GRP_SET { opt } else { 0 },
        dst,
        src,
    }
}

fn set(opt: u8, dst: u32, src: u32) -> Instruction {
    insn(GRP_SET, 0, opt, (false, true), dst, src)
}

fn play(playlist: u32) -> Instruction {
    insn(GRP_BRANCH, BRANCH_PLAY, 0, (true, true), playlist, 0)
}

fn goto(target: u32) -> Instruction {
    insn(GRP_BRANCH, BRANCH_GOTO, 1, (true, true), target, 0)
}

fn any() -> HashSet<u32> {
    HashSet::new()
}

/// The value of register 1 after an operation.
fn computed(opt: u8, dst: u32, src: u32) -> u32 {
    let mut gprs = HashMap::from([(1, dst)]);
    execute_set(&set(opt, 1, src), &mut gprs);
    gprs[&1]
}

#[test]
fn set_operations() {
    assert_eq!(computed(0x01, 12, 5), 5, "move");
    assert_eq!(computed(0x03, 12, 5), 17, "add");
    assert_eq!(computed(0x03, u32::MAX, 1), 0, "add wraps");
    assert_eq!(computed(0x04, 5, 12), 0xFFFF_FFF9, "subtract wraps");
    assert_eq!(computed(0x05, 12, 5), 60, "multiply");
    assert_eq!(computed(0x06, 12, 5), 2, "divide");
    assert_eq!(computed(0x06, 12, 0), 12, "divide by zero does nothing");
    assert_eq!(computed(0x07, 12, 5), 2, "remainder");
    assert_eq!(computed(0x07, 12, 0), 12, "remainder by zero does nothing");
    assert_eq!(computed(0x08, 12, 5), 1, "random number");
    assert_eq!(computed(0x08, 12, 0), 12, "random number below zero does nothing");
    assert_eq!(computed(0x09, 12, 5), 4, "and");
    assert_eq!(computed(0x0A, 12, 5), 13, "or");
    assert_eq!(computed(0x0B, 12, 5), 9, "exclusive or");
    assert_eq!(computed(0x0C, 12, 5), 44, "set bit");
    assert_eq!(computed(0x0D, 12, 2), 8, "clear bit");
    assert_eq!(computed(0x0E, 12, 5), 384, "shift left");
    assert_eq!(computed(0x0F, 12, 2), 3, "shift right");
    assert_eq!(computed(0x10, 12, 5), 12, "unknown operations do nothing");
}

#[test]
fn swap_exchanges_registers() {
    let mut gprs = HashMap::from([(1, 7), (2, 9)]);
    execute_set(&insn(GRP_SET, 0, 0x02, (false, false), 1, 2), &mut gprs);
    assert_eq!(gprs, HashMap::from([(1, 9), (2, 7)]));
}

#[test]
fn comparisons() {
    let gprs = HashMap::from([(1, 5), (2, 6)]);
    let holds = |opt: u8, a: u32, b: u32| {
        execute_cmp(&insn(GRP_CMP, 0, opt, (false, false), a, b), &gprs)
    };
    assert_eq!([holds(2, 1, 1), holds(2, 1, 2)], [true, false], "equal");
    assert_eq!([holds(3, 1, 1), holds(3, 1, 2)], [false, true], "different");
    assert_eq!([holds(4, 1, 1), holds(4, 1, 2)], [true, false], "not below");
    assert_eq!([holds(5, 2, 1), holds(5, 1, 1)], [true, false], "above");
    assert_eq!([holds(6, 1, 1), holds(6, 2, 1)], [true, false], "not above");
    assert_eq!([holds(7, 1, 2), holds(7, 1, 1)], [true, false], "below");
    assert!(!holds(9, 1, 1), "unknown comparisons do not hold");
}

#[test]
fn gotos() {
    let gprs = HashMap::from([(1, 3)]);
    let mut pc = 0;
    assert!(execute_goto(&goto(7), &gprs, &mut pc));
    assert_eq!(pc, 7, "immediate target");
    let by_register = insn(GRP_BRANCH, BRANCH_GOTO, 1, (false, true), 1, 0);
    assert!(execute_goto(&by_register, &gprs, &mut pc));
    assert_eq!(pc, 3, "target from a register");
    let end = insn(GRP_BRANCH, BRANCH_GOTO, 2, (true, true), 0, 0);
    assert!(execute_goto(&end, &gprs, &mut pc));
    assert_eq!(pc, usize::MAX, "a break ends the program");
    pc = 4;
    let nop = insn(GRP_BRANCH, BRANCH_GOTO, 0, (true, true), 9, 0);
    assert!(!execute_goto(&nop, &gprs, &mut pc));
    assert_eq!(pc, 4, "nothing happens");
}

#[test]
fn unwritten_status_register_stands_for_general_register() {
    let gprs = HashMap::from([(4077, 9)]);
    assert_eq!(fetch_operand(false, PSR_FLAG | 4077, &gprs), 9);
    let both = HashMap::from([(4077, 9), (PSR_FLAG | 4077, 4)]);
    assert_eq!(fetch_operand(false, PSR_FLAG | 4077, &both), 4);
    assert_eq!(fetch_operand(false, 12, &both), 0, "never written");
    assert_eq!(fetch_operand(true, 12, &both), 12, "immediate");
}

#[test]
fn false_comparison_skips_one_instruction() {
    let program = [insn(GRP_CMP, 0, 2, (true, true), 1, 2), play(100), play(200)];
    let target = run_mobj_vm(&program, 0, &mut HashMap::new(), &any());
    assert_eq!(target, Some(PlayTarget { playlist: 200, branch_opt: 0, mark_or_pi: 0 }));
}

#[test]
fn runs_play_only_what_may_be_played() {
    let program = [play(0), play(0xFFFF), play(5), play(6)];
    let played = |valid: &HashSet<u32>| {
        run_mobj_vm(&program, 0, &mut HashMap::new(), valid).map(|t| t.playlist)
    };
    assert_eq!(played(&any()), Some(5), "reserved numbers are passed over");
    assert_eq!(played(&HashSet::from([6])), Some(6), "only listed playlists");
    assert_eq!(played(&HashSet::from([9])), None);
}

#[test]
fn endless_program_uses_up_its_steps() {
    let program = [set(0x03, 1, 1), goto(0)];
    let mut gprs = HashMap::new();
    assert_eq!(run_mobj_vm(&program, 0, &mut gprs, &any()), None);
    assert_eq!(gprs[&1], 5_000, "half of the steps are additions");
}

#[test]
fn runs_start_anywhere() {
    let program = [play(1), play(2), play(3)];
    let ctx = PlayerContext::default();
    let played = |pc: usize| execute_from(&program, pc, &[], &any(), &ctx).map(|t| t.playlist);
    assert_eq!(played(1), Some(2));
    assert_eq!(played(3), None);
    assert_eq!(played(usize::MAX), None);
}

#[test]
fn traces_apply_assignments_again_at_each_play() {
    let by_register = insn(GRP_BRANCH, BRANCH_PLAY, 0, (false, true), 1, 0);
    let program = [by_register.clone(), set(0x01, 1, 7), play(9), by_register];
    let ctx = PlayerContext::default();
    assert_eq!(trace_play_pls(&program, &[(1, 5)], &any(), &ctx), vec![5, 9, 5]);
    assert_eq!(trace_play_pls(&program, &[], &any(), &ctx), vec![9, 7]);
}

#[test]
fn context_is_seen_by_buttons() {
    let read = |register: u32, opcode: u32| NavigationCommand::Other { opcode, dst: 50, src: register };
    let ctx = PlayerContext { ig_stream: 0x1400, selected_button_id: 12, page_id: 3 };
    let stale = HashMap::from([(PSR_FLAG | 0x0A, 99), (50, 1)]);
    let jump = NavigationCommand::GotoMobj { object_id: 4 };
    for (register, expected) in [(PSR_FLAG, 0x1400), (PSR_FLAG | 0x0A, 12), (PSR_FLAG | 0x0B, 3)] {
        let (effect, gprs) =
            execute_button_commands(&[read(register, 0x5000_0001), jump], &ctx, &stale);
        assert_eq!(effect, ButtonEffect::GotoMobj(4));
        assert_eq!(gprs[&50], expected);
    }
    let (effect, _) = execute_button_commands(&[], &ctx, &stale);
    assert_eq!(effect, ButtonEffect::Nothing);
}

#[test]
fn seed_holds_no_status_registers() {
    let program = vec![set(0x01, 7, 1), set(0x01, PSR_FLAG | 5, 2)];
    let file = MovieObjectFile { objects: vec![MovieObject { instructions: program }] };
    assert_eq!(seed_gpr_state(&file), HashMap::from([(7, 1)]));
    assert!(seed_gpr_state(&MovieObjectFile { objects: vec![] }).is_empty());
}

#[test]
fn handlers_are_found_by_value_and_register() {
    let program = [
        insn(GRP_SET, 0, 1, (false, false), 100, 200),
        set(1, 101, 21),
        insn(GRP_CMP, 0, 2, (false, false), 100, 101),
        goto(40),
        play(1),
    ];
    assert_eq!(find_handler_pc(&program, 21, 200), Some(40));
    assert_eq!(find_handler_pc(&program, 22, 200), None, "another value");
    assert_eq!(find_handler_pc(&program, 21, 201), None, "another register");
}

#[test]
fn instructions_as_text() {
    let text = |i: Instruction| format_instruction(&i);
    let branch = |sub: u8, opt: u8| insn(GRP_BRANCH, sub, opt, (true, true), 7, 3);
    assert_eq!(text(branch(BRANCH_GOTO, 0)), "NOP");
    assert_eq!(text(branch(BRANCH_GOTO, 1)), "GOTO 7");
    assert_eq!(text(branch(BRANCH_GOTO, 2)), "BREAK");
    assert_eq!(text(branch(BRANCH_GOTO, 9)), "BRANCH(opt=9)");
    assert_eq!(text(branch(BRANCH_JUMP, 0)), "JumpMobj(7)");
    assert_eq!(text(branch(BRANCH_PLAY, 0)), "PlayPl(7)");
    assert_eq!(text(branch(BRANCH_PLAY, 1)), "PlayPlatMK(7, mark=3)");
    assert_eq!(text(branch(BRANCH_PLAY, 2)), "PlayPlatPI(7, pi=3)");
    assert_eq!(text(branch(BRANCH_PLAY, 4)), "PlayPl(7, opt=4)");
    assert_eq!(text(branch(3, 1)), "BRANCH(sub=3, opt=1)");
    let compare = |opt: u8| insn(GRP_CMP, 0, opt, (false, true), PSR_FLAG | 4, 3);
    assert_eq!(text(compare(2)), "CMP PSR[4] == 3");
    assert_eq!(text(compare(3)), "CMP PSR[4] != 3");
    assert_eq!(text(compare(4)), "CMP PSR[4] >= 3");
    assert_eq!(text(compare(5)), "CMP PSR[4] > 3");
    assert_eq!(text(compare(6)), "CMP PSR[4] <= 3");
    assert_eq!(text(compare(7)), "CMP PSR[4] < 3");
    assert_eq!(text(compare(1)), "CMP PSR[4] ? 3");
    let system = |opt: u8| insn(GRP_SET, 1, opt, (false, false), 1, 2);
    assert_eq!(text(system(3)), "SET_BUTTON_PAGE(GPR[1], GPR[2])");
    assert_eq!(text(system(4)), "SETSYSTEM(opt=4, GPR[1], GPR[2])");
    let expected = [
        "GPR[1] = 2",
        "GPR[1] <=> 2",
        "GPR[1] += 2",
        "GPR[1] -= 2",
        "GPR[1] *= 2",
        "GPR[1] /= 2",
        "GPR[1] %= 2",
        "GPR[1] = rand(2)",
        "GPR[1] &= 2",
        "GPR[1] |= 2",
        "GPR[1] ^= 2",
        "GPR[1] |= (1 << 2)",
        "GPR[1] &= ~(1 << 2)",
        "GPR[1] <<= 2",
        "GPR[1] >>= 2",
        "SET(opt=16, GPR[1], 2)",
    ];
    for (i, line) in expected.iter().enumerate() {
        assert_eq!(text(set(i as u8 + 1, 1, 2)), *line);
    }
    assert_eq!(text(insn(3, 2, 0, (true, true), 0, 0)), "UNKNOWN(grp=3, sub=2)");
}

#[test]
fn instruction_words_are_decoded() {
    let decoded = decode_instruction(0x5140_0003, 1, 2);
    assert_eq!(decoded.op_cnt, 2);
    assert_eq!(decoded.group, GRP_SET);
    assert_eq!(decoded.sub_group, 1);
    assert_eq!([decoded.imm_op1, decoded.imm_op2], [false, true]);
    assert_eq!(decoded.set_opt, 3);
    let branch = decode_instruction(0x2281_0000, 1, 2);
    assert_eq!([branch.group, branch.sub_group, branch.branch_opt], [GRP_BRANCH, BRANCH_PLAY, 1]);
    let compare = decode_instruction(0x4840_0200, 1, 2);
    assert_eq!([compare.group, compare.cmp_opt], [GRP_CMP, 2]);
}

#[test]
fn movie_object_errors() {
    let short = parse(b"MOBJ").expect_err("too small");
    assert!(matches!(short, MobjError::TooSmall { size: 4 }));
    assert_eq!(short.message(), "file too small (4 bytes, need at least 50)");
    let magic = parse(&[b'X'; 50]).expect_err("no movie object file");
    assert!(matches!(magic, MobjError::InvalidMagic { found: [88, 88, 88, 88] }));
    assert_eq!(magic.message(), "invalid magic: expected \"MOBJ\", got [88, 88, 88, 88]");
    let mut data = vec![0; 50];
    data[..4].copy_from_slice(b"MOBJ");
    data[49] = 1;
    let end = parse(&data).expect_err("an object is missing");
    assert_eq!(
        end.message(),
        "unexpected end of data at offset 50 (need 2 bytes, have 0)"
    );
    let cursor = CursorError { offset: 1, needed: 2, available: 3 };
    assert_eq!(
        MobjError::from(cursor).message(),
        "unexpected end of data at offset 1 (need 2 bytes, have 3)"
    );
}
