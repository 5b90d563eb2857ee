//! Movie objects: parsing, execution and menu resolution.
use std::collections::{HashMap, HashSet};

use reliquary_bdmv::mobj::{
    command_to_instruction, execute_button_commands, extract_dispatch_table,
    find_dispatch_entries, find_visible_button_for_nop, is_nop_anchor, parse, resolve_buttons,
    resolve_via_execution, seed_gpr_state, BreadcrumbStep, ButtonEffect, DispatchEntry,
    NavClipInput, PlayTarget, PlayerContext, BRANCH_JUMP, BRANCH_PLAY, GRP_BRANCH, GRP_SET,
    PSR_FLAG,
};
use reliquary_bdmv::nav::{Button, NavigationCommand, Page};

fn make_button(button_id: u16, commands: Vec<NavigationCommand>) -> Button {
    Button {
        button_id,
        x: 0,
        y: 0,
        upper_button_id: 0,
        lower_button_id: 0,
        left_button_id: 0,
        right_button_id: 0,
        normal_object_id: 0,
        selected_object_id: 0,
        commands,
        bog_id: 0,
    }
}

fn make_button_at(
    button_id: u16,
    x: u16,
    y: u16,
    commands: Vec<NavigationCommand>,
) -> Button {
    Button {
        button_id,
        x,
        y,
        upper_button_id: 0,
        lower_button_id: 0,
        left_button_id: 0,
        right_button_id: 0,
        normal_object_id: 0,
        selected_object_id: 0,
        commands,
        bog_id: 0,
    }
}

/// Creates a button with explicit neighbor navigation fields.
fn make_button_with_neighbors(
    button_id: u16,
    x: u16,
    y: u16,
    neighbors: [u16; 4],
    commands: Vec<NavigationCommand>,
) -> Button {
    Button {
        button_id,
        x,
        y,
        upper_button_id: neighbors[0],
        lower_button_id: neighbors[1],
        left_button_id: neighbors[2],
        right_button_id: neighbors[3],
        normal_object_id: 0,
        selected_object_id: 0,
        commands,
        bog_id: 0,
    }
}

fn make_page(page_id: u8, buttons: Vec<Button>) -> Page {
    Page { page_id, buttons }
}

/// Extracts button IDs from a breadcrumb for concise assertions.
fn breadcrumb_ids(crumb: &[BreadcrumbStep]) -> Vec<u16> {
    crumb.iter().map(|s| s.button_id).collect()
}

/// Builds a synthetic `MovieObject.bdmv` binary for testing.
struct MobjBuilder {
    objects: Vec<Vec<InsnSpec>>,
}

/// Specification for a test instruction.
#[derive(Clone)]
enum InsnSpec {
    /// `PlayPl` with immediate playlist number.
    PlayPl(u32),
    /// `PlayPl` with register operand — `PlayPl(GPR[reg])`.
    PlayPlReg(u32),
    /// `SetGpr`: register = immediate value.
    SetGpr(u32, u32),
    /// `SetGpr`: dst register = src register (register-to-register move).
    SetGprReg(u32, u32),
    /// CMP: compare `GPR[register]` == immediate value.
    CmpEq(u32, u32),
    /// CMP: compare `GPR[dst]` == `GPR[src]` (register-to-register).
    CmpEqReg(u32, u32),
    /// GOTO: unconditional branch to instruction index.
    Goto(u32),
    /// GOTO: conditional branch (taken if last CMP was true).
    GotoIf(u32),
    /// `GotoMobj`: jump to movie object (`BRANCH_JUMP`, `imm_op1=1`).
    GotoMobj(u32),
    /// AND: `GPR[dst] &= GPR[src]` (register-to-register).
    AndReg(u32, u32),
    /// ADD: `GPR[dst] += GPR[src]` (register-to-register).
    AddReg(u32, u32),
    /// SETSYSTEM `SET_BUTTON_PAGE(GPR[dst], GPR[src])`.
    SetButtonPage(u32, u32),
    /// Nop (all zeros).
    Nop,
}

impl MobjBuilder {
    fn new() -> Self {
        Self {
            objects: Vec::new(),
        }
    }

    fn object(mut self, instructions: &[InsnSpec]) -> Self {
        self.objects.push(instructions.to_vec());
        self
    }

    fn build(self) -> Vec<u8> {
        let mut data = Vec::new();

        // Header: "MOBJ" + version "0200" + extension_data_start(4)
        // + reserved(28) + length(4) + reserved(4) + num_objects(2)
        data.extend_from_slice(b"MOBJ");
        data.extend_from_slice(b"0200"); // version
        data.extend_from_slice(&0u32.to_be_bytes()); // extension_data_start
        data.extend_from_slice(&[0u8; 28]); // reserved
        // length — we'll fill this later
        let length_offset = data.len();
        data.extend_from_slice(&0u32.to_be_bytes()); // placeholder
        data.extend_from_slice(&0u32.to_be_bytes()); // reserved

        let num_objects = self.objects.len() as u16;
        data.extend_from_slice(&num_objects.to_be_bytes());

        for obj_instrs in &self.objects {
            // Object header: 2 bytes flags/reserved + 2 bytes num_commands
            data.extend_from_slice(&[0u8; 2]); // flags + reserved
            let num_cmds = obj_instrs.len() as u16;
            data.extend_from_slice(&num_cmds.to_be_bytes());

            for insn in obj_instrs {
                build_instruction(&mut data, insn);
            }
        }

        // Fill in length field (remaining data after offset 44)
        let length = (data.len() - length_offset - 4) as u32;
        data[length_offset..length_offset + 4].copy_from_slice(&length.to_be_bytes());

        data
    }
}

fn build_instruction(buf: &mut Vec<u8>, spec: &InsnSpec) {
    match spec {
        InsnSpec::PlayPl(playlist) => {
            // grp=0 (BRANCH), sub_grp=2 (PLAY), op_cnt=1, imm_op1=1
            let insn: u32 = 0x2280_0000;
            buf.extend_from_slice(&insn.to_be_bytes());
            buf.extend_from_slice(&playlist.to_be_bytes()); // dst
            buf.extend_from_slice(&0u32.to_be_bytes()); // src
        }
        InsnSpec::SetGpr(register, value) => {
            // grp=2 (SET), sub_grp=0, op_cnt=2, imm_op2=1, set_opt=1 (MOVE)
            let insn: u32 = 0x5040_0001;
            buf.extend_from_slice(&insn.to_be_bytes());
            buf.extend_from_slice(&register.to_be_bytes());
            buf.extend_from_slice(&value.to_be_bytes());
        }
        InsnSpec::CmpEq(register, value) => {
            // grp=1 (CMP), sub_grp=0, op_cnt=2, imm_op1=0 (dst=GPR),
            // imm_op2=1 (src=immediate), cmp_opt=2 (EQ)
            let insn: u32 = 0x4840_0200;
            buf.extend_from_slice(&insn.to_be_bytes());
            buf.extend_from_slice(&register.to_be_bytes()); // dst = GPR ref
            buf.extend_from_slice(&value.to_be_bytes()); // src = immediate
        }
        InsnSpec::PlayPlReg(register) => {
            // grp=0 (BRANCH), sub_grp=2 (PLAY), op_cnt=1, imm_op1=0
            let insn: u32 = 0x2200_0000;
            buf.extend_from_slice(&insn.to_be_bytes());
            buf.extend_from_slice(&register.to_be_bytes()); // dst = GPR ref
            buf.extend_from_slice(&0u32.to_be_bytes());
        }
        InsnSpec::SetGprReg(dst_reg, src_reg) => {
            // grp=2 (SET), sub_grp=0, op_cnt=2, imm_op1=0, imm_op2=0, set_opt=1 (MOVE)
            let insn: u32 = 0x5000_0001;
            buf.extend_from_slice(&insn.to_be_bytes());
            buf.extend_from_slice(&dst_reg.to_be_bytes());
            buf.extend_from_slice(&src_reg.to_be_bytes());
        }
        InsnSpec::CmpEqReg(dst_reg, src_reg) => {
            // grp=1 (CMP), sub_grp=0, op_cnt=2, imm_op1=0, imm_op2=0, cmp_opt=2 (EQ)
            let insn: u32 = 0x4800_0200;
            buf.extend_from_slice(&insn.to_be_bytes());
            buf.extend_from_slice(&dst_reg.to_be_bytes());
            buf.extend_from_slice(&src_reg.to_be_bytes());
        }
        InsnSpec::Goto(target) => {
            // grp=0 (BRANCH), sub_grp=0 (GOTO), op_cnt=1, imm_op1=1,
            // branch_opt=1 (GOTO — unconditional jump)
            let insn: u32 = 0x2081_0000;
            buf.extend_from_slice(&insn.to_be_bytes());
            buf.extend_from_slice(&target.to_be_bytes());
            buf.extend_from_slice(&0u32.to_be_bytes());
        }
        InsnSpec::GotoIf(target) => {
            // grp=0 (BRANCH), sub_grp=0 (GOTO), op_cnt=1, imm_op1=1,
            // branch_opt=1 (GOTO — conditionality comes from CMP skip)
            let insn: u32 = 0x2081_0000;
            buf.extend_from_slice(&insn.to_be_bytes());
            buf.extend_from_slice(&target.to_be_bytes());
            buf.extend_from_slice(&0u32.to_be_bytes());
        }
        InsnSpec::GotoMobj(object_id) => {
            // grp=0 (BRANCH), sub_grp=1 (JUMP), op_cnt=1, imm_op1=1,
            // branch_opt=1 (GOTO)
            let insn: u32 = 0x2181_0000;
            buf.extend_from_slice(&insn.to_be_bytes());
            buf.extend_from_slice(&object_id.to_be_bytes());
            buf.extend_from_slice(&0u32.to_be_bytes());
        }
        InsnSpec::AndReg(dst_reg, src_reg) => {
            // grp=2 (SET), sub_grp=0, op_cnt=2, imm_op2=0, set_opt=9 (AND)
            let insn: u32 = 0x5000_0009;
            buf.extend_from_slice(&insn.to_be_bytes());
            buf.extend_from_slice(&dst_reg.to_be_bytes());
            buf.extend_from_slice(&src_reg.to_be_bytes());
        }
        InsnSpec::AddReg(dst_reg, src_reg) => {
            // grp=2 (SET), sub_grp=0, op_cnt=2, imm_op2=0, set_opt=3 (ADD)
            let insn: u32 = 0x5000_0003;
            buf.extend_from_slice(&insn.to_be_bytes());
            buf.extend_from_slice(&dst_reg.to_be_bytes());
            buf.extend_from_slice(&src_reg.to_be_bytes());
        }
        InsnSpec::SetButtonPage(dst_reg, src_reg) => {
            // grp=2 (SET), sub_grp=1 (SETSYSTEM), op_cnt=2,
            // imm_op1=0, imm_op2=0, set_opt=3 (SET_BUTTON_PAGE)
            let insn: u32 = 0x5100_0003;
            buf.extend_from_slice(&insn.to_be_bytes());
            buf.extend_from_slice(&dst_reg.to_be_bytes());
            buf.extend_from_slice(&src_reg.to_be_bytes());
        }
        InsnSpec::Nop => {
            buf.extend_from_slice(&[0u8; 12]);
        }
    }
}

/// Converts an `InsnSpec` to raw `(opcode, dst, src)` for building
/// `NavigationCommand::Other` from test instruction specs.
fn spec_to_raw(spec: &InsnSpec) -> (u32, u32, u32) {
    let mut buf = Vec::new();
    build_instruction(&mut buf, spec);
    let opcode = u32::from_be_bytes([buf[0], buf[1], buf[2], buf[3]]);
    let dst = u32::from_be_bytes([buf[4], buf[5], buf[6], buf[7]]);
    let src = u32::from_be_bytes([buf[8], buf[9], buf[10], buf[11]]);
    (opcode, dst, src)
}

/// Builds a `NavigationCommand::Other` from an `InsnSpec`.
fn spec_to_other(spec: &InsnSpec) -> NavigationCommand {
    let (opcode, dst, src) = spec_to_raw(spec);
    NavigationCommand::Other { opcode, dst, src }
}

/// Builds a synthetic dispatch MOBJ with the CMP/GOTO switch pattern.
///
/// Structure:
/// - Instructions 0..cases*4: switch table (4 instructions per case)
/// - Instructions cases*4..: handler blocks (SET + `PlayPl` + GOTO per case)
fn build_dispatch_mobj(cases: &[(u32, u16)]) -> Vec<InsnSpec> {
    let switch_end = cases.len() * 4;
    // +1 for exit GOTO between switch and handlers
    let handlers_start = switch_end + 1;
    let exit_pc = handlers_start + cases.len() * 3;
    let mut instrs = Vec::new();

    // Switch table: 4 instructions per case
    for (i, &(case_val, _)) in cases.iter().enumerate() {
        let handler_pc = handlers_start + i * 3;
        instrs.push(InsnSpec::SetGprReg(100, 200)); // load dispatch reg
        instrs.push(InsnSpec::SetGpr(101, case_val)); // case value
        instrs.push(InsnSpec::CmpEqReg(100, 101)); // compare
        instrs.push(InsnSpec::Goto(handler_pc as u32)); // → handler
    }

    // Exit GOTO: no match → skip all handlers (real discs have this)
    instrs.push(InsnSpec::Goto(exit_pc as u32));

    // Handler blocks: SET playlist + PlayPl + GOTO loop
    for &(_, playlist) in cases {
        instrs.push(InsnSpec::SetGpr(100, u32::from(playlist)));
        instrs.push(InsnSpec::PlayPlReg(100));
        instrs.push(InsnSpec::Goto(0)); // loop back
    }

    // Exit target
    instrs.push(InsnSpec::Nop);

    instrs
}

#[test]
fn parse_parse_single_object() {
    let data = MobjBuilder::new().object(&[InsnSpec::PlayPl(203)]).build();

    let file = parse(&data).expect("should parse single object");
    assert_eq!(file.objects.len(), 1, "one object");
    assert_eq!(file.objects[0].instructions.len(), 1, "one instruction");

    let insn = &file.objects[0].instructions[0];
    assert_eq!(insn.group, GRP_BRANCH, "group is BRANCH");
    assert_eq!(insn.sub_group, BRANCH_PLAY, "sub_group is PLAY");
    assert_eq!(insn.dst, 203, "dst holds playlist number");
}

#[test]
fn parse_parse_multiple_objects() {
    let data = MobjBuilder::new()
        .object(&[InsnSpec::PlayPl(201), InsnSpec::PlayPl(202)])
        .object(&[InsnSpec::Nop])
        .object(&[
            InsnSpec::CmpEq(0, 1),
            InsnSpec::Goto(4),
            InsnSpec::CmpEq(0, 2),
            InsnSpec::Goto(5),
            InsnSpec::PlayPl(301),
            InsnSpec::PlayPl(302),
        ])
        .build();

    let file = parse(&data).expect("should parse multiple objects");
    assert_eq!(file.objects.len(), 3, "three objects");
    assert_eq!(
        file.objects[0].instructions.len(),
        2,
        "object 0: two instructions"
    );
    assert_eq!(
        file.objects[1].instructions.len(),
        1,
        "object 1: one instruction"
    );
    assert_eq!(
        file.objects[2].instructions.len(),
        6,
        "object 2: six instructions"
    );
}

#[test]
fn parse_parse_rejects_invalid_magic() {
    let mut data = MobjBuilder::new().object(&[InsnSpec::Nop]).build();
    data[0..4].copy_from_slice(b"NOPE");

    let err = parse(&data).expect_err("should reject invalid magic").message();
    assert!(
        err.contains("invalid magic"),
        "error mentions invalid magic: {err}"
    );
}

#[test]
fn parse_parse_rejects_truncated_file() {
    let data = b"MOBJ0200";

    let err = parse(data).expect_err("should reject truncated file").message();
    assert!(
        err.contains("too small"),
        "error mentions size: {err}"
    );
}

#[test]
fn parse_instruction_fields_decoded_correctly() {
    let data = MobjBuilder::new()
        .object(&[InsnSpec::SetGpr(3, 42)])
        .build();

    let file = parse(&data).expect("should parse SetGpr");
    let insn = &file.objects[0].instructions[0];

    assert_eq!(insn.group, GRP_SET, "group is SET");
    assert_eq!(insn.sub_group, 0, "sub_group is 0");
    assert_eq!(insn.op_cnt, 2, "op_cnt is 2");
    assert!(!insn.imm_op1, "dst is GPR reference");
    assert!(insn.imm_op2, "src is immediate");
    assert_eq!(insn.dst, 3, "dst is GPR 3");
    assert_eq!(insn.src, 42, "src is 42");
}

#[test]
fn parse_command_to_instruction_roundtrip() {
    // Verify that command_to_instruction produces correct Instruction
    // fields for each NavigationCommand variant.

    // PlayPl
    let play = command_to_instruction(&NavigationCommand::PlayPl {
        playlist: 42,
        branch_opt: 0,
        mark_or_pi: 0,
    });
    assert_eq!(play.group, GRP_BRANCH, "PlayPl group");
    assert_eq!(play.sub_group, BRANCH_PLAY, "PlayPl sub_group");
    assert!(play.imm_op1, "PlayPl imm_op1");
    assert_eq!(play.dst, 42, "PlayPl dst");

    // SetGpr
    let set = command_to_instruction(&NavigationCommand::SetGpr {
        register: 100,
        value: 999,
    });
    assert_eq!(set.group, GRP_SET, "SetGpr group");
    assert_eq!(set.sub_group, 0, "SetGpr sub_group");
    assert_eq!(set.set_opt, 0x01, "SetGpr MOVE");
    assert!(set.imm_op2, "SetGpr imm_op2");
    assert_eq!(set.dst, 100, "SetGpr dst");
    assert_eq!(set.src, 999, "SetGpr src");

    // GotoMobj
    let goto = command_to_instruction(&NavigationCommand::GotoMobj { object_id: 7 });
    assert_eq!(goto.group, GRP_BRANCH, "GotoMobj group");
    assert_eq!(goto.sub_group, BRANCH_JUMP, "GotoMobj sub_group");
    assert!(goto.imm_op1, "GotoMobj imm_op1");
    assert_eq!(goto.dst, 7, "GotoMobj dst");

    // Other (AND instruction)
    let (opcode, dst, src) = spec_to_raw(&InsnSpec::AndReg(4077, 4076));
    let other = command_to_instruction(&NavigationCommand::Other { opcode, dst, src });
    assert_eq!(other.group, GRP_SET, "Other AND group");
    assert_eq!(other.set_opt, 0x09, "Other AND set_opt");
    assert_eq!(other.dst, 4077, "Other AND dst");
    assert_eq!(other.src, 4076, "Other AND src");
}

#[test]
fn nop_detection_empty_commands() {
    let button = make_button(10, vec![]);
    assert!(is_nop_anchor(&button), "empty commands → NOP anchor");
}

#[test]
fn nop_detection_all_nop_instructions() {
    let button = make_button(10, vec![spec_to_other(&InsnSpec::Nop)]);
    assert!(
        is_nop_anchor(&button),
        "single NOP instruction → NOP anchor"
    );

    let button2 = make_button(
        10,
        vec![spec_to_other(&InsnSpec::Nop), spec_to_other(&InsnSpec::Nop)],
    );
    assert!(
        is_nop_anchor(&button2),
        "multiple NOP instructions → NOP anchor"
    );
}

#[test]
fn nop_detection_real_commands_not_nop() {
    let button = make_button(
        10,
        vec![NavigationCommand::SetGpr {
            register: 100,
            value: 42,
        }],
    );
    assert!(!is_nop_anchor(&button), "SetGpr command → not NOP");

    let button2 = make_button(10, vec![NavigationCommand::GotoMobj { object_id: 1 }]);
    assert!(!is_nop_anchor(&button2), "GotoMobj command → not NOP");

    let button3 = make_button(
        10,
        vec![NavigationCommand::PlayPl {
            playlist: 200,
            branch_opt: 0,
            mark_or_pi: 0,
        }],
    );
    assert!(!is_nop_anchor(&button3), "PlayPl command → not NOP");
}

#[test]
fn visible_button_forward_trace() {
    // Visible button's SET_BUTTON_PAGE directly targets the NOP
    // anchor's button_id. Forward trace matches without spatial
    // fallback.
    //
    // Visible button computes composite = button_id 19 via register.
    // SetGpr(50, 19) + SetButtonPage(50, 51) → composite = 19.
    let visible = make_button_at(
        5,
        229,
        668,
        vec![
            NavigationCommand::SetGpr {
                register: 50,
                value: 19,
            },
            NavigationCommand::SetGpr {
                register: 51,
                value: 0,
            },
            spec_to_other(&InsnSpec::SetButtonPage(50, 51)),
        ],
    );
    let page = make_page(
        0,
        vec![make_button_at(19, 1339, 949, vec![]), visible],
    );
    let nop_ref = make_button_at(19, 1339, 949, vec![]);

    let gprs = HashMap::new();
    let result = find_visible_button_for_nop(&page, &nop_ref, 0x1200, 0, &gprs);
    assert_eq!(
        result,
        Some(5),
        "forward trace finds visible btn[5] targeting NOP btn[19]"
    );
}

#[test]
fn visible_button_neighbor_1hop() {

    // NOP anchor btn[21] has btn[5] as its upper neighbor.
    // btn[5] is a visible button — should be found in 1 hop.
    let nop = make_button_with_neighbors(
        21,
        199,
        668,
        [5, 0, 0, 0], // upper=5
        vec![],
    );
    let thumb = make_button_at(
        5,
        229,
        668,
        vec![NavigationCommand::SetGpr {
            register: 50,
            value: 0,
        }],
    );

    let page = make_page(0, vec![nop.clone(), thumb]);
    let gprs = HashMap::new();
    let result = find_visible_button_for_nop(&page, &nop, 0x1200, 0, &gprs);
    assert_eq!(result, Some(5), "1-hop neighbor walk finds visible btn[5]");
}

#[test]
fn visible_button_neighbor_2hop() {

    // NOP anchor btn[21] → neighbor btn[22] (another NOP) → neighbor btn[5] (visible).
    // 2-hop walk required.
    let nop = make_button_with_neighbors(
        21,
        0,
        0,
        [22, 0, 0, 0], // upper=22
        vec![],
    );
    let intermediate = make_button_with_neighbors(
        22,
        0,
        0,
        [5, 0, 0, 0], // upper=5
        vec![],
    );
    let thumb = make_button_at(
        5,
        229,
        668,
        vec![NavigationCommand::SetGpr {
            register: 50,
            value: 0,
        }],
    );

    let page = make_page(0, vec![nop.clone(), intermediate, thumb]);
    let gprs = HashMap::new();
    let result = find_visible_button_for_nop(&page, &nop, 0x1200, 0, &gprs);
    assert_eq!(result, Some(5), "2-hop neighbor walk finds visible btn[5]");
}

#[test]
fn visible_button_no_neighbor_link_returns_none() {

    // NOP anchor btn[21] has no neighbor links to any visible button.
    // On a copy-paste page, the neighbor pointers reference non-existent
    // buttons — should return None to thin the candidate pool.
    let nop = make_button_with_neighbors(
        21,
        0,
        0,
        [99, 98, 97, 96], // all neighbors reference buttons not on this page
        vec![],
    );
    let thumb = make_button_at(
        5,
        229,
        668,
        vec![NavigationCommand::SetGpr {
            register: 50,
            value: 0,
        }],
    );

    let page = make_page(0, vec![nop.clone(), thumb]);
    let gprs = HashMap::new();
    let result = find_visible_button_for_nop(&page, &nop, 0x1200, 0, &gprs);
    assert_eq!(result, None, "no neighbor link to visible button → None");
}

#[test]
fn visible_button_no_visible_returns_none() {
    // Page with only NOP anchors — no visible buttons to map to.
    let page = make_page(
        0,
        vec![
            make_button(12, vec![]),
            make_button(15, vec![spec_to_other(&InsnSpec::Nop)]),
        ],
    );
    let nop_ref = make_button(12, vec![]);

    let gprs = HashMap::new();
    let result = find_visible_button_for_nop(&page, &nop_ref, 0x1200, 0, &gprs);
    assert_eq!(result, None, "no visible buttons → None");
}

#[test]
fn visible_button_breadcrumb_in_resolver() {

    // End-to-end: NOP anchor on a page with a neighbor-linked visible
    // thumbnail. The resolver's breadcrumb should record the visible
    // button, not the NOP anchor.
    let nop = make_button_with_neighbors(21, 199, 668, [5, 0, 0, 0], vec![]);
    let thumb = make_button_at(
        5,
        229,
        668,
        vec![
            NavigationCommand::SetGpr {
                register: 50,
                value: 0,
            },
            NavigationCommand::SetGpr {
                register: 51,
                value: 26,
            },
            spec_to_other(&InsnSpec::SetButtonPage(50, 51)),
        ],
    );
    let page = make_page(0, vec![nop, thumb]);

    let dispatch_mobj = build_dispatch_mobj(&[(21, 209), (23, 210), (25, 211)]);
    let mobj_data = MobjBuilder::new().object(&dispatch_mobj).build();
    let mobj_file = parse(&mobj_data).expect("should parse");
    let table = extract_dispatch_table(&mobj_file).expect("should extract table");

    let clips = vec![NavClipInput {
        ig_pid: 0x1200,
        pages: vec![&page],
    }];

    let resolved = resolve_via_execution(
        &clips,
        &mobj_file,
        Some(&table),
        &HashSet::new(),
    );

    assert_eq!(resolved.len(), 1, "one NOP anchor resolved");
    assert_eq!(resolved[0].target.playlist, 209, "NOP btn[21] → PL 209");
    assert_eq!(
        breadcrumb_ids(&resolved[0].breadcrumb),
        vec![5],
        "breadcrumb records visible btn[5], not NOP btn[21]"
    );
}

#[test]
fn register_computed_set_button_page() {
    // WB Special Features button command program (a WB Blu-ray title btn[4]):
    //   1. GPR[4075] = 5              (nav bar offset, immediate)
    //   2. GPR[4076] = 0xFFFF          (mask, immediate)
    //   3. GPR[4077] = PSR[10]         (selected button ID, reg-to-reg)
    //   4. GPR[4077] &= GPR[4076]      (mask to 16 bits)
    //   5. GPR[4077] += GPR[4075]      (offset → composite dispatch key)
    //   6. GPR[4075] = GPR[3051]        (page from config DB, reg-to-reg)
    //   7. SET_BUTTON_PAGE(GPR[4077], GPR[4075])
    //   8. NOP
    //
    // With btn[4] selected (PSR[10]=4) and GPR[3051]=6:
    //   composite = (4 & 0xFFFF) + 5 = 9
    //   page = GPR[3051] = 6
    let commands = vec![
        NavigationCommand::SetGpr {
            register: 4075,
            value: 5,
        },
        NavigationCommand::SetGpr {
            register: 4076,
            value: 0xFFFF,
        },
        spec_to_other(&InsnSpec::SetGprReg(4077, PSR_FLAG | 0x0A)),
        spec_to_other(&InsnSpec::AndReg(4077, 4076)),
        spec_to_other(&InsnSpec::AddReg(4077, 4075)),
        spec_to_other(&InsnSpec::SetGprReg(4075, 3051)),
        spec_to_other(&InsnSpec::SetButtonPage(4077, 4075)),
        spec_to_other(&InsnSpec::Nop),
    ];

    let ctx = PlayerContext {
        ig_stream: 0x1200,
        selected_button_id: 4,
        page_id: 1,
    };

    // GPR[3051] = 6 from MOBJ[0] init (page config for special features)
    let mut gprs = HashMap::new();
    gprs.insert(3051_u32, 6_u32);

    let (effect, _) = execute_button_commands(&commands, &ctx, &gprs);

    match effect {
        ButtonEffect::SetButtonPage { composite, page } => {
            assert_eq!(composite, 9, "composite = PSR[10](4) & 0xFFFF + 5 = 9");
            assert_eq!(page, 6, "page = GPR[3051] = 6");
        }
        ref other => panic!("expected SetButtonPage, got {other:?}"),
    }
}

#[test]
fn register_computed_set_button_page_without_seed() {
    // Same command program but GPR[3051] is NOT seeded.
    // GPR[3051] defaults to 0, so page = 0 instead of 6.
    // This models the failure when seed_gpr_state doesn't
    // initialize the config register.
    let commands = vec![
        NavigationCommand::SetGpr {
            register: 4075,
            value: 5,
        },
        NavigationCommand::SetGpr {
            register: 4076,
            value: 0xFFFF,
        },
        spec_to_other(&InsnSpec::SetGprReg(4077, PSR_FLAG | 0x0A)),
        spec_to_other(&InsnSpec::AndReg(4077, 4076)),
        spec_to_other(&InsnSpec::AddReg(4077, 4075)),
        spec_to_other(&InsnSpec::SetGprReg(4075, 3051)),
        spec_to_other(&InsnSpec::SetButtonPage(4077, 4075)),
        spec_to_other(&InsnSpec::Nop),
    ];

    let ctx = PlayerContext {
        ig_stream: 0x1200,
        selected_button_id: 4,
        page_id: 1,
    };

    let gprs = HashMap::new(); // no seed

    let (effect, _) = execute_button_commands(&commands, &ctx, &gprs);

    match effect {
        ButtonEffect::SetButtonPage { composite, page } => {
            assert_eq!(
                composite, 9,
                "composite still computed correctly from PSR[10]"
            );
            assert_eq!(
                page, 0,
                "page = 0 when GPR[3051] uninitialized (wrong destination)"
            );
        }
        ref other => panic!("expected SetButtonPage, got {other:?}"),
    }
}

#[test]
fn seed_gpr_captures_registers_after_play_pl() {
    // MOBJ[0] writes GPR[3051] = 6 AFTER a PlayPl instruction.
    // PlayPl is skipped during seeding, so the entire init block
    // executes.
    let mobj_data = MobjBuilder::new()
        .object(&[
            // Init guard: CMP PSR[4] != 0xFFFF → skip init
            InsnSpec::Nop, // simplified: no guard in test
            // GPR database — writes before and after PlayPl
            InsnSpec::SetGpr(3000, 42),
            InsnSpec::SetGpr(3001, 99),
            // Menu start (real discs play the menu playlist here)
            InsnSpec::PlayPl(100),
            // More GPR writes AFTER the PlayPl
            InsnSpec::SetGpr(3051, 6),
            InsnSpec::SetGpr(3052, 7),
        ])
        .build();

    let mobj_file = parse(&mobj_data).expect("should parse");
    let gprs = seed_gpr_state(&mobj_file);

    assert_eq!(
        gprs.get(&3000).copied(),
        Some(42),
        "GPR[3000] captured before PlayPl"
    );
    assert_eq!(
        gprs.get(&3051).copied(),
        Some(6),
        "GPR[3051] captured AFTER PlayPl (the fix)"
    );
    assert_eq!(
        gprs.get(&3052).copied(),
        Some(7),
        "GPR[3052] captured after PlayPl"
    );
}

#[test]
fn resolve_resolve_set_gpr_goto_mobj_with_positional_pairing() {
    let mobj_data = MobjBuilder::new()
        .object(&[InsnSpec::Nop]) // MOBJ 0
        .object(&[InsnSpec::Nop]) // MOBJ 1
        .object(&[
            InsnSpec::CmpEq(0, 1),
            InsnSpec::CmpEq(0, 3),
            InsnSpec::CmpEq(0, 5),
            InsnSpec::PlayPl(201),
            InsnSpec::PlayPl(203),
            InsnSpec::PlayPl(205),
        ])
        .build();

    let mobj_file = parse(&mobj_data).expect("should parse MOBJ file");

    let button = make_button(
        7,
        vec![
            NavigationCommand::SetGpr {
                register: 0,
                value: 3,
            },
            NavigationCommand::GotoMobj { object_id: 2 },
        ],
    );

    let resolved = resolve_buttons(
        &[(button, PlayerContext::default())],
        &mobj_file,
        &HashSet::new(),
        &[],
        None,
    );
    assert_eq!(resolved.len(), 1, "one button resolved");
    assert_eq!(resolved[0].button_id, 7, "button id");
    assert_eq!(resolved[0].target.playlist, 203, "resolved to playlist 203");
}

#[test]
fn resolve_resolve_set_gpr_goto_mobj_with_branch_target_pairing() {
    let mobj_data = MobjBuilder::new()
        .object(&[
            InsnSpec::CmpEq(0, 1),
            InsnSpec::Goto(4),
            InsnSpec::CmpEq(0, 5),
            InsnSpec::Goto(5),
            InsnSpec::PlayPl(201),
            InsnSpec::PlayPl(205),
        ])
        .build();

    let mobj_file = parse(&mobj_data).expect("should parse MOBJ file");

    let button = make_button(
        3,
        vec![
            NavigationCommand::SetGpr {
                register: 0,
                value: 5,
            },
            NavigationCommand::GotoMobj { object_id: 0 },
        ],
    );

    let resolved = resolve_buttons(
        &[(button, PlayerContext::default())],
        &mobj_file,
        &HashSet::new(),
        &[],
        None,
    );
    assert_eq!(resolved.len(), 1, "one button resolved");
    assert_eq!(resolved[0].target.playlist, 205, "resolved to playlist 205");
}

#[test]
fn resolve_resolve_skips_button_with_direct_play_pl() {
    let mobj_data = MobjBuilder::new().object(&[InsnSpec::PlayPl(100)]).build();
    let mobj_file = parse(&mobj_data).expect("should parse");

    let button = make_button(
        1,
        vec![NavigationCommand::PlayPl {
            playlist: 100,
            branch_opt: 0,
            mark_or_pi: 0,
        }],
    );

    let resolved = resolve_buttons(
        &[(button, PlayerContext::default())],
        &mobj_file,
        &HashSet::new(),
        &[],
        None,
    );
    assert!(resolved.is_empty(), "direct PlayPl button skipped");
}

#[test]
fn resolve_resolve_returns_empty_for_unresolvable_button() {
    let mobj_data = MobjBuilder::new().object(&[InsnSpec::Nop]).build();
    let mobj_file = parse(&mobj_data).expect("should parse");

    let button = make_button(
        1,
        vec![
            NavigationCommand::SetGpr {
                register: 0,
                value: 5,
            },
            NavigationCommand::GotoMobj { object_id: 0 },
        ],
    );

    let resolved = resolve_buttons(
        &[(button, PlayerContext::default())],
        &mobj_file,
        &HashSet::new(),
        &[],
        None,
    );
    assert!(resolved.is_empty(), "unresolvable button not in output");
}

#[test]
fn resolve_resolve_multiple_buttons_same_mobj() {
    let mobj_data = MobjBuilder::new()
        .object(&[
            InsnSpec::CmpEq(0, 1),
            InsnSpec::CmpEq(0, 2),
            InsnSpec::CmpEq(0, 3),
            InsnSpec::PlayPl(201),
            InsnSpec::PlayPl(202),
            InsnSpec::PlayPl(203),
        ])
        .build();

    let mobj_file = parse(&mobj_data).expect("should parse");

    let buttons = vec![
        make_button(
            10,
            vec![
                NavigationCommand::SetGpr {
                    register: 0,
                    value: 1,
                },
                NavigationCommand::GotoMobj { object_id: 0 },
            ],
        ),
        make_button(
            11,
            vec![
                NavigationCommand::SetGpr {
                    register: 0,
                    value: 2,
                },
                NavigationCommand::GotoMobj { object_id: 0 },
            ],
        ),
        make_button(
            12,
            vec![
                NavigationCommand::SetGpr {
                    register: 0,
                    value: 3,
                },
                NavigationCommand::GotoMobj { object_id: 0 },
            ],
        ),
    ];

    let resolved = resolve_buttons(
        &buttons
            .into_iter()
            .map(|b| (b, PlayerContext::default()))
            .collect::<Vec<_>>(),
        &mobj_file,
        &HashSet::new(),
        &[],
        None,
    );
    assert_eq!(resolved.len(), 3, "all three buttons resolved");
    assert_eq!(resolved[0].target.playlist, 201, "button 10 → playlist 201");
    assert_eq!(resolved[1].target.playlist, 202, "button 11 → playlist 202");
    assert_eq!(resolved[2].target.playlist, 203, "button 12 → playlist 203");
}

#[test]
fn resolve_resolve_unconditional_single_play_pl() {
    let mobj_data = MobjBuilder::new().object(&[InsnSpec::PlayPl(500)]).build();
    let mobj_file = parse(&mobj_data).expect("should parse");

    let button = make_button(
        1,
        vec![
            NavigationCommand::SetGpr {
                register: 0,
                value: 99,
            },
            NavigationCommand::GotoMobj { object_id: 0 },
        ],
    );

    let resolved = resolve_buttons(
        &[(button, PlayerContext::default())],
        &mobj_file,
        &HashSet::new(),
        &[],
        None,
    );
    assert_eq!(resolved.len(), 1, "resolved via unconditional fallback");
    assert_eq!(resolved[0].target.playlist, 500, "playlist 500");
}

#[test]
fn resolve_resolve_out_of_bounds_mobj_returns_empty() {
    let mobj_data = MobjBuilder::new().object(&[InsnSpec::Nop]).build();
    let mobj_file = parse(&mobj_data).expect("should parse");

    let button = make_button(
        1,
        vec![
            NavigationCommand::SetGpr {
                register: 0,
                value: 1,
            },
            NavigationCommand::GotoMobj { object_id: 99 },
        ],
    );

    let resolved = resolve_buttons(
        &[(button, PlayerContext::default())],
        &mobj_file,
        &HashSet::new(),
        &[],
        None,
    );
    assert!(resolved.is_empty(), "out-of-bounds MOBJ not resolved");
}

#[test]
fn resolve_vm_resolves_gpr_dispatch_pattern() {
    let mobj_data = MobjBuilder::new()
        .object(&[
            InsnSpec::SetGpr(4076, 1),
            InsnSpec::CmpEqReg(4075, 4076),
            InsnSpec::GotoIf(6),
            InsnSpec::SetGpr(4076, 5),
            InsnSpec::CmpEqReg(4075, 4076),
            InsnSpec::GotoIf(9),
            InsnSpec::SetGpr(4075, 201),
            InsnSpec::PlayPlReg(4075),
            InsnSpec::Nop,
            InsnSpec::SetGpr(4075, 205),
            InsnSpec::PlayPlReg(4075),
        ])
        .build();

    let mobj_file = parse(&mobj_data).expect("should parse");

    let button = make_button(
        7,
        vec![NavigationCommand::SetGpr {
            register: 4075,
            value: 5,
        }],
    );

    let resolved = resolve_buttons(
        &[(button, PlayerContext::default())],
        &mobj_file,
        &HashSet::new(),
        &[],
        None,
    );
    assert_eq!(resolved.len(), 1, "one button resolved");
    assert_eq!(resolved[0].target.playlist, 205, "resolved to playlist 205");
}

#[test]
fn resolve_vm_resolves_multiple_buttons_gpr_dispatch() {
    let mobj_data = MobjBuilder::new()
        .object(&[
            InsnSpec::SetGpr(4076, 1),      // 0
            InsnSpec::CmpEqReg(4075, 4076), // 1
            InsnSpec::GotoIf(10),           // 2
            InsnSpec::SetGpr(4076, 2),      // 3
            InsnSpec::CmpEqReg(4075, 4076), // 4
            InsnSpec::GotoIf(13),           // 5
            InsnSpec::SetGpr(4076, 3),      // 6
            InsnSpec::CmpEqReg(4075, 4076), // 7
            InsnSpec::GotoIf(16),           // 8
            InsnSpec::Goto(18),             // 9
            InsnSpec::SetGpr(4075, 201),    // 10
            InsnSpec::PlayPlReg(4075),      // 11
            InsnSpec::Goto(18),             // 12
            InsnSpec::SetGpr(4075, 202),    // 13
            InsnSpec::PlayPlReg(4075),      // 14
            InsnSpec::Goto(18),             // 15
            InsnSpec::SetGpr(4075, 203),    // 16
            InsnSpec::PlayPlReg(4075),      // 17
            InsnSpec::Nop,                  // 18
        ])
        .build();

    let mobj_file = parse(&mobj_data).expect("should parse");
    let valid_playlists: HashSet<u32> = [201, 202, 203].into();

    let buttons = vec![
        make_button(
            10,
            vec![NavigationCommand::SetGpr {
                register: 4075,
                value: 1,
            }],
        ),
        make_button(
            11,
            vec![NavigationCommand::SetGpr {
                register: 4075,
                value: 2,
            }],
        ),
        make_button(
            12,
            vec![NavigationCommand::SetGpr {
                register: 4075,
                value: 3,
            }],
        ),
    ];

    let resolved = resolve_buttons(
        &buttons
            .into_iter()
            .map(|b| (b, PlayerContext::default()))
            .collect::<Vec<_>>(),
        &mobj_file,
        &valid_playlists,
        &[],
        None,
    );
    assert_eq!(resolved.len(), 3, "all three buttons resolved");
    assert_eq!(resolved[0].target.playlist, 201, "button 10 → 201");
    assert_eq!(resolved[1].target.playlist, 202, "button 11 → 202");
    assert_eq!(resolved[2].target.playlist, 203, "button 12 → 203");
}

#[test]
fn resolve_vm_skips_mobj_without_register_play_pl() {
    let mobj_data = MobjBuilder::new()
        .object(&[InsnSpec::PlayPl(999)])
        .object(&[
            InsnSpec::SetGpr(4076, 5),
            InsnSpec::CmpEqReg(4075, 4076),
            InsnSpec::GotoIf(5),
            InsnSpec::Nop,
            InsnSpec::Nop,
            InsnSpec::SetGpr(4075, 300),
            InsnSpec::PlayPlReg(4075),
        ])
        .build();

    let mobj_file = parse(&mobj_data).expect("should parse");
    let button = make_button(
        1,
        vec![NavigationCommand::SetGpr {
            register: 4075,
            value: 5,
        }],
    );

    let resolved = resolve_buttons(
        &[(button, PlayerContext::default())],
        &mobj_file,
        &HashSet::new(),
        &[],
        None,
    );
    assert_eq!(resolved.len(), 1, "resolved via MOBJ 1");
    assert_eq!(resolved[0].target.playlist, 300, "playlist 300");
}

#[test]
fn resolve_vm_no_match_returns_empty() {
    let mobj_data = MobjBuilder::new()
        .object(&[
            InsnSpec::SetGpr(4076, 1),
            InsnSpec::CmpEqReg(4075, 4076),
            InsnSpec::GotoIf(4),
            InsnSpec::Goto(6),
            InsnSpec::SetGpr(4075, 201),
            InsnSpec::PlayPlReg(4075),
            InsnSpec::Nop,
        ])
        .build();

    let mobj_file = parse(&mobj_data).expect("should parse");
    let button = make_button(
        1,
        vec![NavigationCommand::SetGpr {
            register: 4075,
            value: 99,
        }],
    );

    let resolved = resolve_buttons(
        &[(button, PlayerContext::default())],
        &mobj_file,
        &HashSet::new(),
        &[],
        None,
    );
    assert!(resolved.is_empty(), "unmatched dispatch key not resolved");
}

#[test]
fn resolve_vm_handles_register_to_register_set() {
    let mobj_data = MobjBuilder::new()
        .object(&[InsnSpec::SetGprReg(100, 4075), InsnSpec::PlayPlReg(100)])
        .build();

    let mobj_file = parse(&mobj_data).expect("should parse");
    let button = make_button(
        1,
        vec![NavigationCommand::SetGpr {
            register: 4075,
            value: 203,
        }],
    );

    let resolved = resolve_buttons(
        &[(button, PlayerContext::default())],
        &mobj_file,
        &HashSet::new(),
        &[],
        None,
    );
    assert_eq!(resolved.len(), 1, "resolved via register copy");
    assert_eq!(resolved[0].target.playlist, 203, "playlist 203");
}

#[test]
fn resolve_find_dispatch_entries_finds_menu_play_pl() {
    let mobj_data = MobjBuilder::new()
        .object(&[
            InsnSpec::Nop,
            InsnSpec::Nop,
            InsnSpec::PlayPl(800),
            InsnSpec::Nop,
            InsnSpec::PlayPlReg(4075),
        ])
        .build();

    let mobj_file = parse(&mobj_data).expect("should parse");
    let menu_playlists: HashSet<u32> = [800].into();

    let entries = find_dispatch_entries(&mobj_file, &menu_playlists);
    assert_eq!(entries.len(), 1, "one dispatch entry");
    assert_eq!(entries[0].mobj_index, 0, "mobj index");
    assert_eq!(entries[0].dispatch_pc, 3, "dispatch pc is 3");
}

#[test]
fn resolve_find_dispatch_entries_ignores_non_menu_play_pl() {
    let mobj_data = MobjBuilder::new()
        .object(&[InsnSpec::PlayPl(201), InsnSpec::Nop])
        .build();

    let mobj_file = parse(&mobj_data).expect("should parse");
    let menu_playlists: HashSet<u32> = [800].into();

    let entries = find_dispatch_entries(&mobj_file, &menu_playlists);
    assert!(entries.is_empty(), "no entries for non-menu PlayPl");
}

#[test]
fn resolve_find_dispatch_entries_ignores_last_instruction() {
    let mobj_data = MobjBuilder::new().object(&[InsnSpec::PlayPl(800)]).build();

    let mobj_file = parse(&mobj_data).expect("should parse");
    let menu_playlists: HashSet<u32> = [800].into();

    let entries = find_dispatch_entries(&mobj_file, &menu_playlists);
    assert!(
        entries.is_empty(),
        "no entry when PlayPl is last instruction"
    );
}

#[test]
fn resolve_find_dispatch_entries_multiple_mobjs() {
    let mobj_data = MobjBuilder::new()
        .object(&[InsnSpec::PlayPl(800), InsnSpec::Nop])
        .object(&[InsnSpec::Nop, InsnSpec::PlayPl(801), InsnSpec::Nop])
        .build();

    let mobj_file = parse(&mobj_data).expect("should parse");
    let menu_playlists: HashSet<u32> = [800, 801].into();

    let entries = find_dispatch_entries(&mobj_file, &menu_playlists);
    assert_eq!(entries.len(), 2, "two dispatch entries");
    assert_eq!(entries[0].mobj_index, 0, "first entry: mobj 0");
    assert_eq!(entries[0].dispatch_pc, 1, "first entry: pc 1");
    assert_eq!(entries[1].mobj_index, 1, "second entry: mobj 1");
    assert_eq!(entries[1].dispatch_pc, 2, "second entry: pc 2");
}

#[test]
fn resolve_dispatch_entry_resolves_warner_bros_pattern() {
    let mobj_data = MobjBuilder::new()
        .object(&[
            InsnSpec::SetGpr(4075, 0),
            InsnSpec::SetGpr(4076, 0),
            InsnSpec::SetGpr(4077, 0),
            InsnSpec::Nop,
            InsnSpec::Nop,
            InsnSpec::PlayPl(800),
            InsnSpec::SetGpr(4076, 1),
            InsnSpec::CmpEqReg(4075, 4076),
            InsnSpec::GotoIf(17),
            InsnSpec::SetGpr(4076, 2),
            InsnSpec::CmpEqReg(4075, 4076),
            InsnSpec::GotoIf(20),
            InsnSpec::SetGpr(4076, 3),
            InsnSpec::CmpEqReg(4075, 4076),
            InsnSpec::GotoIf(23),
            InsnSpec::Goto(25),
            InsnSpec::Nop,
            InsnSpec::SetGpr(4075, 201),
            InsnSpec::PlayPlReg(4075),
            InsnSpec::Goto(25),
            InsnSpec::SetGpr(4075, 202),
            InsnSpec::PlayPlReg(4075),
            InsnSpec::Goto(25),
            InsnSpec::SetGpr(4075, 203),
            InsnSpec::PlayPlReg(4075),
            InsnSpec::Nop,
        ])
        .build();

    let mobj_file = parse(&mobj_data).expect("should parse");
    let valid_playlists: HashSet<u32> = [201, 202, 203].into();

    // Without dispatch entries — lifecycle simulation
    let button_lifecycle = make_button(
        1,
        vec![NavigationCommand::SetGpr {
            register: 4075,
            value: 2,
        }],
    );
    let lifecycle_result = resolve_buttons(
        &[(button_lifecycle, PlayerContext::default())],
        &mobj_file,
        &valid_playlists,
        &[],
        None,
    );
    assert_eq!(
        lifecycle_result.len(),
        1,
        "lifecycle simulation resolves without dispatch entries"
    );
    assert_eq!(
        lifecycle_result[0].target.playlist, 202,
        "lifecycle: button key=2 → playlist 202"
    );

    // With dispatch entries
    let dispatch_entries = vec![DispatchEntry {
        mobj_index: 0,
        dispatch_pc: 6,
    }];
    let button = make_button(
        1,
        vec![NavigationCommand::SetGpr {
            register: 4075,
            value: 2,
        }],
    );

    let resolved = resolve_buttons(
        &[(button, PlayerContext::default())],
        &mobj_file,
        &valid_playlists,
        &dispatch_entries,
        None,
    );
    assert_eq!(resolved.len(), 1, "resolved with dispatch entry");
    assert_eq!(
        resolved[0].target.playlist, 202,
        "button key=2 → playlist 202"
    );
}

#[test]
fn resolve_dispatch_entry_resolves_multiple_buttons() {
    let mobj_data = MobjBuilder::new()
        .object(&[
            InsnSpec::SetGpr(4075, 0),
            InsnSpec::PlayPl(800),
            InsnSpec::SetGpr(4076, 10),
            InsnSpec::CmpEqReg(4075, 4076),
            InsnSpec::GotoIf(11),
            InsnSpec::SetGpr(4076, 20),
            InsnSpec::CmpEqReg(4075, 4076),
            InsnSpec::GotoIf(14),
            InsnSpec::SetGpr(4076, 30),
            InsnSpec::CmpEqReg(4075, 4076),
            InsnSpec::GotoIf(17),
            InsnSpec::SetGpr(4075, 301),
            InsnSpec::PlayPlReg(4075),
            InsnSpec::Goto(19),
            InsnSpec::SetGpr(4075, 302),
            InsnSpec::PlayPlReg(4075),
            InsnSpec::Goto(19),
            InsnSpec::SetGpr(4075, 303),
            InsnSpec::PlayPlReg(4075),
            InsnSpec::Nop,
        ])
        .build();

    let mobj_file = parse(&mobj_data).expect("should parse");
    let dispatch_entries = vec![DispatchEntry {
        mobj_index: 0,
        dispatch_pc: 2,
    }];

    let buttons = vec![
        make_button(
            1,
            vec![NavigationCommand::SetGpr {
                register: 4075,
                value: 10,
            }],
        ),
        make_button(
            2,
            vec![NavigationCommand::SetGpr {
                register: 4075,
                value: 20,
            }],
        ),
        make_button(
            3,
            vec![NavigationCommand::SetGpr {
                register: 4075,
                value: 30,
            }],
        ),
    ];

    let resolved = resolve_buttons(
        &buttons
            .into_iter()
            .map(|b| (b, PlayerContext::default()))
            .collect::<Vec<_>>(),
        &mobj_file,
        &HashSet::new(),
        &dispatch_entries,
        None,
    );
    assert_eq!(resolved.len(), 3, "all three buttons resolved");
    assert_eq!(resolved[0].target.playlist, 301, "key 10 → 301");
    assert_eq!(resolved[1].target.playlist, 302, "key 20 → 302");
    assert_eq!(resolved[2].target.playlist, 303, "key 30 → 303");
}

#[test]
fn resolve_dispatch_entry_end_to_end_with_find() {
    let mobj_data = MobjBuilder::new()
        .object(&[
            InsnSpec::SetGpr(4075, 0),
            InsnSpec::PlayPl(800),
            InsnSpec::SetGpr(4076, 5),
            InsnSpec::CmpEqReg(4075, 4076),
            InsnSpec::GotoIf(7),
            InsnSpec::Nop,
            InsnSpec::Nop,
            InsnSpec::SetGpr(4075, 205),
            InsnSpec::PlayPlReg(4075),
        ])
        .build();

    let mobj_file = parse(&mobj_data).expect("should parse");
    let menu_playlists: HashSet<u32> = [800].into();
    let dispatch_entries = find_dispatch_entries(&mobj_file, &menu_playlists);
    assert_eq!(dispatch_entries.len(), 1, "one dispatch entry found");
    assert_eq!(dispatch_entries[0].dispatch_pc, 2, "dispatch_pc = 2");

    let button = make_button(
        7,
        vec![NavigationCommand::SetGpr {
            register: 4075,
            value: 5,
        }],
    );

    let resolved = resolve_buttons(
        &[(button, PlayerContext::default())],
        &mobj_file,
        &HashSet::new(),
        &dispatch_entries,
        None,
    );
    assert_eq!(resolved.len(), 1, "resolved via dispatch entry");
    assert_eq!(resolved[0].target.playlist, 205, "key 5 → playlist 205");
}

#[test]
fn resolve_dispatch_entry_goto_mobj_unaffected() {
    let mobj_data = MobjBuilder::new()
        .object(&[InsnSpec::PlayPl(800), InsnSpec::Nop])
        .object(&[InsnSpec::PlayPl(201)])
        .build();

    let mobj_file = parse(&mobj_data).expect("should parse");
    let dispatch_entries = vec![DispatchEntry {
        mobj_index: 0,
        dispatch_pc: 1,
    }];

    let button = make_button(
        1,
        vec![
            NavigationCommand::SetGpr {
                register: 0,
                value: 1,
            },
            NavigationCommand::GotoMobj { object_id: 1 },
        ],
    );

    let resolved = resolve_buttons(
        &[(button, PlayerContext::default())],
        &mobj_file,
        &HashSet::new(),
        &dispatch_entries,
        None,
    );
    assert_eq!(resolved.len(), 1, "GotoMobj still works");
    assert_eq!(resolved[0].target.playlist, 201, "resolved via GotoMobj");
}

#[test]
fn resolve_extract_dispatch_table_three_cases() {
    let dispatch_mobj = build_dispatch_mobj(&[(0, 201), (1, 202), (2, 203)]);
    let mobj_data = MobjBuilder::new().object(&dispatch_mobj).build();

    let mobj_file = parse(&mobj_data).expect("should parse dispatch MOBJ");
    let table = extract_dispatch_table(&mobj_file).expect("should extract dispatch table");

    assert_eq!(table.mobj_index, 0, "dispatch MOBJ is index 0");
    assert_eq!(
        table.dispatch_register, 200,
        "dispatch register is GPR[200]"
    );
    assert_eq!(table.cases.len(), 3, "three cases");
    assert_eq!(table.cases[0], (0, 201), "case 0 → playlist 201");
    assert_eq!(table.cases[1], (1, 202), "case 1 → playlist 202");
    assert_eq!(table.cases[2], (2, 203), "case 2 → playlist 203");
}

#[test]
fn resolve_extract_dispatch_table_with_init_code() {
    let mut instrs = vec![
        InsnSpec::SetGpr(200, 0),
        InsnSpec::SetGpr(100, 0),
        InsnSpec::Nop,
    ];
    let cases: [(u32, u16); 3] = [(5, 301), (10, 302), (15, 303)];
    let switch_start = instrs.len();
    for (i, &(case_val, _)) in cases.iter().enumerate() {
        let handler_pc = switch_start + cases.len() * 4 + i * 3;
        instrs.push(InsnSpec::SetGprReg(100, 200));
        instrs.push(InsnSpec::SetGpr(101, case_val));
        instrs.push(InsnSpec::CmpEqReg(100, 101));
        instrs.push(InsnSpec::Goto(handler_pc as u32));
    }
    for &(_, playlist) in &cases {
        instrs.push(InsnSpec::SetGpr(100, u32::from(playlist)));
        instrs.push(InsnSpec::PlayPlReg(100));
        instrs.push(InsnSpec::Goto(0));
    }

    let mobj_data = MobjBuilder::new().object(&instrs).build();
    let mobj_file = parse(&mobj_data).expect("should parse");
    let table = extract_dispatch_table(&mobj_file).expect("should extract table");

    assert_eq!(table.cases.len(), 3, "three cases despite init code");
    assert_eq!(table.cases[0], (5, 301), "case 5 → 301");
    assert_eq!(table.cases[1], (10, 302), "case 10 → 302");
    assert_eq!(table.cases[2], (15, 303), "case 15 → 303");
}

#[test]
fn resolve_extract_dispatch_table_picks_mobj_with_most_handlers() {
    let small_mobj = vec![InsnSpec::PlayPl(999)];
    let dispatch_mobj = build_dispatch_mobj(&[(0, 201), (1, 202), (2, 203), (3, 204)]);

    let mobj_data = MobjBuilder::new()
        .object(&small_mobj)
        .object(&dispatch_mobj)
        .build();
    let mobj_file = parse(&mobj_data).expect("should parse");
    let table = extract_dispatch_table(&mobj_file).expect("should extract table");

    assert_eq!(table.mobj_index, 1, "picked MOBJ 1 (more handlers)");
    assert_eq!(table.cases.len(), 4, "four cases");
}

#[test]
fn resolve_extract_dispatch_table_none_for_goto_mobj_disc() {
    let mobj_data = MobjBuilder::new()
        .object(&[InsnSpec::PlayPl(201)])
        .object(&[InsnSpec::PlayPl(202)])
        .object(&[
            InsnSpec::CmpEq(0, 1),
            InsnSpec::Goto(4),
            InsnSpec::CmpEq(0, 2),
            InsnSpec::Goto(5),
            InsnSpec::PlayPl(301),
            InsnSpec::PlayPl(302),
        ])
        .build();

    let mobj_file = parse(&mobj_data).expect("should parse");
    assert!(
        extract_dispatch_table(&mobj_file).is_none(),
        "no dispatch table for GotoMobj-style disc"
    );
}

#[test]
fn resolve_dispatch_table_resolves_buttons_composite() {
    let dispatch_mobj = build_dispatch_mobj(&[(5, 205), (8, 208), (11, 211)]);
    let mobj_data = MobjBuilder::new().object(&dispatch_mobj).build();
    let mobj_file = parse(&mobj_data).expect("should parse");
    let table = extract_dispatch_table(&mobj_file).expect("should extract table");

    let buttons = vec![
        make_button(
            6,
            vec![NavigationCommand::SetGpr {
                register: 4075,
                value: 5,
            }],
        ),
        make_button(
            3,
            vec![NavigationCommand::SetGpr {
                register: 4075,
                value: 5,
            }],
        ),
        make_button(
            0,
            vec![NavigationCommand::SetGpr {
                register: 4075,
                value: 5,
            }],
        ),
    ];

    let resolved = resolve_buttons(
        &buttons
            .into_iter()
            .map(|b| (b, PlayerContext::default()))
            .collect::<Vec<_>>(),
        &mobj_file,
        &HashSet::new(),
        &[],
        Some(&table),
    );
    assert_eq!(resolved.len(), 3, "all three buttons resolved via table");
    assert_eq!(
        resolved[0].target.playlist, 211,
        "button_id=6, key=5 → case 11 → 211"
    );
    assert_eq!(
        resolved[1].target.playlist, 208,
        "button_id=3, key=5 → case 8 → 208"
    );
    assert_eq!(
        resolved[2].target.playlist, 205,
        "button_id=0, key=5 → case 5 → 205"
    );
}

#[test]
fn resolve_dispatch_table_composite_outside_range_not_resolved() {
    let dispatch_mobj = build_dispatch_mobj(&[(10, 201), (11, 202), (12, 203)]);
    let mobj_data = MobjBuilder::new().object(&dispatch_mobj).build();
    let mobj_file = parse(&mobj_data).expect("should parse");
    let table = extract_dispatch_table(&mobj_file).expect("should extract table");

    let button = make_button(
        1,
        vec![NavigationCommand::SetGpr {
            register: 4075,
            value: 99,
        }],
    );

    let resolved = resolve_buttons(
        &[(button, PlayerContext::default())],
        &mobj_file,
        &HashSet::new(),
        &[],
        Some(&table),
    );
    assert!(resolved.is_empty(), "unmatched key not resolved via table");
}

#[test]
fn resolve_dispatch_table_coexists_with_goto_mobj() {
    let goto_target = vec![InsnSpec::PlayPl(500)];
    let dispatch_mobj = build_dispatch_mobj(&[(20, 301), (22, 302), (24, 303)]);

    let mobj_data = MobjBuilder::new()
        .object(&goto_target)
        .object(&dispatch_mobj)
        .build();
    let mobj_file = parse(&mobj_data).expect("should parse");
    let table = extract_dispatch_table(&mobj_file).expect("should extract table");

    let goto_button = make_button(
        10,
        vec![
            NavigationCommand::SetGpr {
                register: 0,
                value: 1,
            },
            NavigationCommand::GotoMobj { object_id: 0 },
        ],
    );
    let dispatch_button = make_button(
        20,
        vec![NavigationCommand::SetGpr {
            register: 4075,
            value: 2,
        }],
    );

    let resolved = resolve_buttons(
        &[
            (goto_button, PlayerContext::default()),
            (dispatch_button, PlayerContext::default()),
        ],
        &mobj_file,
        &HashSet::new(),
        &[],
        Some(&table),
    );
    assert_eq!(resolved.len(), 2, "both buttons resolved");
    assert_eq!(resolved[0].target.playlist, 500, "GotoMobj → 500");
    assert_eq!(resolved[1].target.playlist, 302, "composite 20+2=22 → 302");
}

#[test]
fn resolve_dispatch_table_button_id_zero_matches_raw_key() {
    let dispatch_mobj = build_dispatch_mobj(&[(0, 201), (5, 205), (10, 210)]);
    let mobj_data = MobjBuilder::new().object(&dispatch_mobj).build();
    let mobj_file = parse(&mobj_data).expect("should parse");
    let table = extract_dispatch_table(&mobj_file).expect("should extract table");

    let button = make_button(
        0,
        vec![NavigationCommand::SetGpr {
            register: 4075,
            value: 10,
        }],
    );

    let resolved = resolve_buttons(
        &[(button, PlayerContext::default())],
        &mobj_file,
        &HashSet::new(),
        &[],
        Some(&table),
    );
    assert_eq!(resolved.len(), 1, "button_id=0 resolved");
    assert_eq!(resolved[0].target.playlist, 210, "composite 0+10=10 → 210");
}

#[test]
fn set_button_page_resolves_via_dispatch_fallback() {
    let button = make_button(
        3,
        vec![
            NavigationCommand::SetGpr {
                register: 4075,
                value: 5,
            },
            NavigationCommand::SetGpr {
                register: 4076,
                value: 0xFFFF,
            },
            spec_to_other(&InsnSpec::SetGprReg(4077, PSR_FLAG | 0x0A)),
            spec_to_other(&InsnSpec::AndReg(4077, 4076)),
            spec_to_other(&InsnSpec::AddReg(4077, 4075)),
            spec_to_other(&InsnSpec::SetButtonPage(4077, 0)),
        ],
    );

    let dispatch_mobj = build_dispatch_mobj(&[(6, 206), (7, 207), (8, 208), (9, 209)]);
    let mobj_data = MobjBuilder::new().object(&dispatch_mobj).build();
    let mobj_file = parse(&mobj_data).expect("should parse");
    let table = extract_dispatch_table(&mobj_file).expect("should extract table");

    let page = make_page(0, vec![button]);
    let clips = vec![NavClipInput {
        ig_pid: 0x1200,
        pages: vec![&page],
    }];

    let resolved = resolve_via_execution(
        &clips,
        &mobj_file,
        Some(&table),
        &HashSet::new(),
    );

    assert_eq!(resolved.len(), 1, "dispatch fallback resolves composite 8");
    assert_eq!(resolved[0].target.playlist, 208, "composite 8 → PL 208");
    assert_eq!(
        breadcrumb_ids(&resolved[0].breadcrumb),
        vec![3],
        "breadcrumb is the navigation button"
    );
}

#[test]
fn nav_breadcrumb_play_pl_via_navigation() {
    let nav_button = make_button(
        1,
        vec![
            NavigationCommand::SetGpr {
                register: 100,
                value: 42,
            },
            NavigationCommand::SetGpr {
                register: 50,
                value: 0,
            },
            NavigationCommand::SetGpr {
                register: 51,
                value: 1,
            },
            spec_to_other(&InsnSpec::SetButtonPage(50, 51)),
        ],
    );
    let page0 = make_page(0, vec![nav_button]);

    let content_button = make_button(
        5,
        vec![
            NavigationCommand::SetGpr {
                register: 0,
                value: 42,
            },
            NavigationCommand::GotoMobj { object_id: 1 },
        ],
    );
    let page1 = make_page(1, vec![content_button]);

    let mobj_data = MobjBuilder::new()
        .object(&[InsnSpec::Nop])
        .object(&[
            InsnSpec::CmpEq(0, 42),
            InsnSpec::Goto(3),
            InsnSpec::Nop,
            InsnSpec::PlayPl(301),
        ])
        .build();
    let mobj_file = parse(&mobj_data).expect("should parse");

    let mut valid = HashSet::new();
    valid.insert(301);

    let clips = vec![NavClipInput {
        ig_pid: 0x1200,
        pages: vec![&page0, &page1],
    }];
    let resolved = resolve_via_execution(&clips, &mobj_file, None, &valid);

    assert_eq!(resolved.len(), 1, "one playlist resolved");
    assert_eq!(resolved[0].target.playlist, 301, "GotoMobj → 301");
    assert_eq!(
        breadcrumb_ids(&resolved[0].breadcrumb),
        vec![1, 5],
        "breadcrumb: nav button 1 → content button 5"
    );
}

#[test]
fn resolve_exec_goto_mobj_resolves_playlist() {
    let button = make_button(
        5,
        vec![
            NavigationCommand::SetGpr {
                register: 0,
                value: 42,
            },
            NavigationCommand::GotoMobj { object_id: 1 },
        ],
    );

    let mobj_data = MobjBuilder::new()
        .object(&[InsnSpec::Nop])
        .object(&[
            InsnSpec::CmpEq(0, 42),
            InsnSpec::Goto(3),
            InsnSpec::Nop,
            InsnSpec::PlayPl(301),
        ])
        .build();
    let mobj_file = parse(&mobj_data).expect("should parse");

    let page = make_page(0, vec![button]);
    let clips = vec![NavClipInput {
        ig_pid: 0x1200,
        pages: vec![&page],
    }];

    let mut valid = HashSet::new();
    valid.insert(301);

    let resolved = resolve_via_execution(&clips, &mobj_file, None, &valid);
    assert_eq!(resolved.len(), 1, "GotoMobj resolved");
    assert_eq!(resolved[0].target.playlist, 301, "GotoMobj → MOBJ[1] → 301");
    assert_eq!(
        breadcrumb_ids(&resolved[0].breadcrumb),
        vec![5],
        "direct content → single-element breadcrumb"
    );
}

#[test]
fn resolve_exec_direct_play_pl_skipped() {
    let button = make_button(
        1,
        vec![NavigationCommand::PlayPl {
            playlist: 200,
            branch_opt: 0,
            mark_or_pi: 0,
        }],
    );

    let mobj_data = MobjBuilder::new().object(&[InsnSpec::Nop]).build();
    let mobj_file = parse(&mobj_data).expect("should parse");

    let page = make_page(0, vec![button]);
    let clips = vec![NavClipInput {
        ig_pid: 0x1200,
        pages: vec![&page],
    }];

    let resolved =
        resolve_via_execution(&clips, &mobj_file, None, &HashSet::new());
    assert!(resolved.is_empty(), "direct PlayPl buttons are skipped");
}

#[test]
fn resolve_exec_step_limit_returns_none() {
    let button = make_button(1, vec![spec_to_other(&InsnSpec::Goto(0))]);

    let mobj_data = MobjBuilder::new().object(&[InsnSpec::Nop]).build();
    let mobj_file = parse(&mobj_data).expect("should parse");

    let page = make_page(0, vec![button]);
    let clips = vec![NavClipInput {
        ig_pid: 0x1200,
        pages: vec![&page],
    }];

    let resolved =
        resolve_via_execution(&clips, &mobj_file, None, &HashSet::new());
    assert!(resolved.is_empty(), "infinite loop produces no result");
}

#[test]
fn nav_breadcrumb_two_level_navigation() {
    let nav0 = make_button(
        1,
        vec![
            NavigationCommand::SetGpr {
                register: 50,
                value: 0,
            },
            NavigationCommand::SetGpr {
                register: 51,
                value: 1,
            },
            spec_to_other(&InsnSpec::SetButtonPage(50, 51)),
        ],
    );
    let page0 = make_page(0, vec![nav0]);

    let nav1 = make_button(
        2,
        vec![
            NavigationCommand::SetGpr {
                register: 50,
                value: 0,
            },
            NavigationCommand::SetGpr {
                register: 51,
                value: 2,
            },
            spec_to_other(&InsnSpec::SetButtonPage(50, 51)),
        ],
    );
    let page1 = make_page(1, vec![nav1]);

    let content = make_button(
        3,
        vec![
            NavigationCommand::SetGpr {
                register: 0,
                value: 1,
            },
            NavigationCommand::GotoMobj { object_id: 1 },
        ],
    );
    let page2 = make_page(2, vec![content]);

    let mobj_data = MobjBuilder::new()
        .object(&[InsnSpec::Nop])
        .object(&[InsnSpec::PlayPl(401)])
        .build();
    let mobj_file = parse(&mobj_data).expect("should parse");

    let mut valid = HashSet::new();
    valid.insert(401);

    let clips = vec![NavClipInput {
        ig_pid: 0x1200,
        pages: vec![&page0, &page1, &page2],
    }];
    let resolved = resolve_via_execution(&clips, &mobj_file, None, &valid);

    assert_eq!(resolved.len(), 1, "one playlist resolved");
    assert_eq!(resolved[0].target.playlist, 401, "three-level → 401");
    assert_eq!(
        breadcrumb_ids(&resolved[0].breadcrumb),
        vec![1, 2, 3],
        "three-level breadcrumb"
    );
}

#[test]
fn resolve_nav_graph_propagates_gpr_state() {
    let nav_button = make_button(
        1,
        vec![
            NavigationCommand::SetGpr {
                register: 100,
                value: 42,
            },
            NavigationCommand::SetGpr {
                register: 50,
                value: 0,
            },
            NavigationCommand::SetGpr {
                register: 51,
                value: 1,
            },
            spec_to_other(&InsnSpec::SetButtonPage(50, 51)),
        ],
    );
    let page0 = make_page(0, vec![nav_button]);

    let content_button = make_button(
        5,
        vec![
            spec_to_other(&InsnSpec::CmpEq(100, 42)),
            NavigationCommand::GotoMobj { object_id: 2 },
            NavigationCommand::GotoMobj { object_id: 1 },
        ],
    );
    let page1 = make_page(1, vec![content_button]);

    let mobj_data = MobjBuilder::new()
        .object(&[InsnSpec::Nop])
        .object(&[InsnSpec::PlayPl(301)])
        .object(&[InsnSpec::PlayPl(302)])
        .build();
    let mobj_file = parse(&mobj_data).expect("should parse");

    let mut valid = HashSet::new();
    valid.insert(301);
    valid.insert(302);

    let clips = vec![NavClipInput {
        ig_pid: 0x1200,
        pages: vec![&page0, &page1],
    }];
    let resolved = resolve_via_execution(&clips, &mobj_file, None, &valid);

    assert_eq!(resolved.len(), 1, "one playlist resolved via navigation");
    assert_eq!(
        resolved[0].target.playlist, 302,
        "GPR[100]=42 → MOBJ[2] → 302"
    );
    assert_eq!(
        breadcrumb_ids(&resolved[0].breadcrumb),
        vec![1, 5],
        "via navigation: breadcrumb [nav, content]"
    );
}

#[test]
fn resolve_nav_graph_multiple_paths_to_same_page() {
    let nav_a = make_button(
        1,
        vec![
            NavigationCommand::SetGpr {
                register: 100,
                value: 10,
            },
            NavigationCommand::SetGpr {
                register: 50,
                value: 0,
            },
            NavigationCommand::SetGpr {
                register: 51,
                value: 1,
            },
            spec_to_other(&InsnSpec::SetButtonPage(50, 51)),
        ],
    );
    let nav_b = make_button(
        2,
        vec![
            NavigationCommand::SetGpr {
                register: 100,
                value: 20,
            },
            NavigationCommand::SetGpr {
                register: 50,
                value: 0,
            },
            NavigationCommand::SetGpr {
                register: 51,
                value: 1,
            },
            spec_to_other(&InsnSpec::SetButtonPage(50, 51)),
        ],
    );
    let page0 = make_page(0, vec![nav_a, nav_b]);

    let content = make_button(
        5,
        vec![
            spec_to_other(&InsnSpec::CmpEq(100, 10)),
            NavigationCommand::GotoMobj { object_id: 1 },
            spec_to_other(&InsnSpec::CmpEq(100, 20)),
            NavigationCommand::GotoMobj { object_id: 2 },
            NavigationCommand::GotoMobj { object_id: 3 },
        ],
    );
    let page1 = make_page(1, vec![content]);

    let mobj_data = MobjBuilder::new()
        .object(&[InsnSpec::Nop])
        .object(&[InsnSpec::PlayPl(301)])
        .object(&[InsnSpec::PlayPl(302)])
        .object(&[InsnSpec::PlayPl(303)])
        .build();
    let mobj_file = parse(&mobj_data).expect("should parse");

    let mut valid = HashSet::new();
    valid.insert(301);
    valid.insert(302);
    valid.insert(303);

    let clips = vec![NavClipInput {
        ig_pid: 0x1200,
        pages: vec![&page0, &page1],
    }];
    let resolved = resolve_via_execution(&clips, &mobj_file, None, &valid);

    let playlists: HashSet<u16> =
        resolved.iter().map(|r| r.target.playlist).collect();
    assert!(playlists.contains(&301), "path A: GPR[100]=10 → 301");
    assert!(playlists.contains(&302), "path B: GPR[100]=20 → 302");
    assert_eq!(playlists.len(), 2, "exactly two playlists");
}

#[test]
fn resolve_nav_graph_handles_cycle() {
    let nav0 = make_button(
        1,
        vec![
            NavigationCommand::SetGpr {
                register: 50,
                value: 0,
            },
            NavigationCommand::SetGpr {
                register: 51,
                value: 1,
            },
            spec_to_other(&InsnSpec::SetButtonPage(50, 51)),
        ],
    );
    let page0 = make_page(0, vec![nav0]);

    let nav1 = make_button(
        2,
        vec![
            NavigationCommand::SetGpr {
                register: 50,
                value: 0,
            },
            NavigationCommand::SetGpr {
                register: 51,
                value: 0,
            },
            spec_to_other(&InsnSpec::SetButtonPage(50, 51)),
        ],
    );
    let page1 = make_page(1, vec![nav1]);

    let mobj_data = MobjBuilder::new().object(&[InsnSpec::Nop]).build();
    let mobj_file = parse(&mobj_data).expect("should parse");

    let clips = vec![NavClipInput {
        ig_pid: 0x1200,
        pages: vec![&page0, &page1],
    }];
    let resolved =
        resolve_via_execution(&clips, &mobj_file, None, &HashSet::new());
    assert!(
        resolved.is_empty(),
        "cycle with no dispatch table produces no resolutions"
    );
}

#[test]
fn resolve_nav_graph_same_page_terminates() {
    let nav_button = make_button(
        3,
        vec![
            NavigationCommand::SetGpr {
                register: 4075,
                value: 5,
            },
            NavigationCommand::SetGpr {
                register: 4076,
                value: 0xFFFF,
            },
            spec_to_other(&InsnSpec::SetGprReg(4077, PSR_FLAG | 0x0A)),
            spec_to_other(&InsnSpec::AndReg(4077, 4076)),
            spec_to_other(&InsnSpec::AddReg(4077, 4075)),
            spec_to_other(&InsnSpec::SetButtonPage(4077, 60)),
        ],
    );
    let page = make_page(0, vec![nav_button]);

    let dispatch_mobj = build_dispatch_mobj(&[(7, 207), (8, 208), (9, 209)]);
    let mobj_data = MobjBuilder::new().object(&dispatch_mobj).build();
    let mobj_file = parse(&mobj_data).expect("should parse");
    let table = extract_dispatch_table(&mobj_file).expect("should extract table");

    let clips = vec![NavClipInput {
        ig_pid: 0x1200,
        pages: vec![&page],
    }];
    let resolved = resolve_via_execution(
        &clips,
        &mobj_file,
        Some(&table),
        &HashSet::new(),
    );

    assert_eq!(resolved.len(), 1, "same-page navigation terminates");
    assert_eq!(resolved[0].target.playlist, 208, "composite 8 → PL 208");
}

#[test]
fn resolve_exec_nop_anchor_resolves_via_button_id() {
    let anchor_12 = make_button(12, vec![]);
    let anchor_15 = make_button(15, vec![spec_to_other(&InsnSpec::Nop)]);
    let anchor_20 = make_button(20, vec![]);

    let dispatch_mobj =
        build_dispatch_mobj(&[(5, 205), (12, 212), (15, 215), (20, 220), (32, 232)]);
    let mobj_data = MobjBuilder::new().object(&dispatch_mobj).build();
    let mobj_file = parse(&mobj_data).expect("should parse");
    let table = extract_dispatch_table(&mobj_file).expect("should extract table");

    let page = make_page(0, vec![anchor_12, anchor_15, anchor_20]);
    let clips = vec![NavClipInput {
        ig_pid: 0x1200,
        pages: vec![&page],
    }];

    let resolved = resolve_via_execution(
        &clips,
        &mobj_file,
        Some(&table),
        &HashSet::new(),
    );

    assert_eq!(resolved.len(), 3, "three anchors resolved");
    let playlists: HashSet<u16> =
        resolved.iter().map(|r| r.target.playlist).collect();
    assert!(playlists.contains(&212), "anchor 12 → 212");
    assert!(playlists.contains(&215), "anchor 15 → 215");
    assert!(playlists.contains(&220), "anchor 20 → 220");

    for rp in &resolved {
        assert_eq!(
            rp.breadcrumb.len(),
            1,
            "root-page anchor has single-element breadcrumb"
        );
    }
}

#[test]
fn resolve_exec_nop_anchor_skipped_without_dispatch_table() {
    let anchor = make_button(12, vec![]);
    let mobj_data = MobjBuilder::new().object(&[InsnSpec::Nop]).build();
    let mobj_file = parse(&mobj_data).expect("should parse");

    let page = make_page(0, vec![anchor]);
    let clips = vec![NavClipInput {
        ig_pid: 0x1200,
        pages: vec![&page],
    }];

    let resolved =
        resolve_via_execution(&clips, &mobj_file, None, &HashSet::new());
    assert!(
        resolved.is_empty(),
        "no dispatch table → no anchor resolution"
    );
}

#[test]
fn resolve_exec_nop_anchor_unmatched_id_skipped() {
    let anchor = make_button(99, vec![]);
    let dispatch_mobj = build_dispatch_mobj(&[(5, 205), (10, 210), (15, 215)]);
    let mobj_data = MobjBuilder::new().object(&dispatch_mobj).build();
    let mobj_file = parse(&mobj_data).expect("should parse");
    let table = extract_dispatch_table(&mobj_file).expect("should extract table");

    let page = make_page(0, vec![anchor]);
    let clips = vec![NavClipInput {
        ig_pid: 0x1200,
        pages: vec![&page],
    }];

    let resolved = resolve_via_execution(
        &clips,
        &mobj_file,
        Some(&table),
        &HashSet::new(),
    );
    assert!(
        resolved.is_empty(),
        "button_id 99 not in dispatch table → no resolution"
    );
}

#[test]
fn exec_nop_anchors_coexist_with_navigation_buttons() {
    let nav_button = make_button_at(
        3,
        1080,
        949,
        vec![
            NavigationCommand::SetGpr {
                register: 4075,
                value: 5,
            },
            NavigationCommand::SetGpr {
                register: 4076,
                value: 0xFFFF,
            },
            spec_to_other(&InsnSpec::SetGprReg(4077, PSR_FLAG | 0x0A)),
            spec_to_other(&InsnSpec::AndReg(4077, 4076)),
            spec_to_other(&InsnSpec::AddReg(4077, 4075)),
            spec_to_other(&InsnSpec::SetButtonPage(4077, 0)),
        ],
    );
    let thumbnail = make_button_at(
        5,
        229,
        668,
        vec![
            NavigationCommand::SetGpr {
                register: 50,
                value: 0,
            },
            NavigationCommand::SetGpr {
                register: 51,
                value: 26,
            },
            spec_to_other(&InsnSpec::SetButtonPage(50, 51)),
        ],
    );
    let anchor = make_button_at(15, 199, 668, vec![]);

    let dispatch_mobj = build_dispatch_mobj(&[(8, 208), (15, 215), (20, 220)]);
    let mobj_data = MobjBuilder::new().object(&dispatch_mobj).build();
    let mobj_file = parse(&mobj_data).expect("should parse");
    let table = extract_dispatch_table(&mobj_file).expect("should extract table");

    let page = make_page(0, vec![nav_button, thumbnail, anchor]);
    let clips = vec![NavClipInput {
        ig_pid: 0x1200,
        pages: vec![&page],
    }];

    let resolved = resolve_via_execution(
        &clips,
        &mobj_file,
        Some(&table),
        &HashSet::new(),
    );

    assert_eq!(
        resolved.len(),
        2,
        "NOP anchor and navigation composite both resolve"
    );
    let pls: HashSet<u16> =
        resolved.iter().map(|r| r.target.playlist).collect();
    assert!(pls.contains(&215), "anchor 15 → 215");
    assert!(pls.contains(&208), "nav composite 8 → 208");

    let anchor_resolution = resolved
        .iter()
        .find(|r| r.target.playlist == 215)
        .expect("should find anchor resolution");
    assert_eq!(
        breadcrumb_ids(&anchor_resolution.breadcrumb),
        vec![5],
        "NOP anchor breadcrumb remapped to visible thumbnail btn[5]"
    );
}

#[test]
fn resolve_exec_nop_anchor_deduplicates() {
    let anchor_p0 = make_button_at(12, 199, 668, vec![]);
    let thumbnail = make_button_at(
        7,
        229,
        668,
        vec![
            NavigationCommand::SetGpr {
                register: 50,
                value: 0,
            },
            NavigationCommand::SetGpr {
                register: 51,
                value: 26,
            },
            spec_to_other(&InsnSpec::SetButtonPage(50, 51)),
        ],
    );
    let nav_a = make_button_at(
        1,
        400,
        949,
        vec![
            NavigationCommand::SetGpr {
                register: 50,
                value: 0,
            },
            NavigationCommand::SetGpr {
                register: 51,
                value: 1,
            },
            spec_to_other(&InsnSpec::SetButtonPage(50, 51)),
        ],
    );
    let nav_b = make_button_at(
        2,
        800,
        949,
        vec![
            NavigationCommand::SetGpr {
                register: 50,
                value: 0,
            },
            NavigationCommand::SetGpr {
                register: 52,
                value: 1,
            },
            spec_to_other(&InsnSpec::SetButtonPage(50, 52)),
        ],
    );
    let anchor_p1 = make_button(12, vec![]);

    let dispatch_mobj = build_dispatch_mobj(&[(12, 212), (15, 215), (20, 220)]);
    let mobj_data = MobjBuilder::new().object(&dispatch_mobj).build();
    let mobj_file = parse(&mobj_data).expect("should parse");
    let table = extract_dispatch_table(&mobj_file).expect("should extract table");

    let page0 = make_page(0, vec![anchor_p0, thumbnail, nav_a, nav_b]);
    let page1 = make_page(1, vec![anchor_p1]);
    let clips = vec![NavClipInput {
        ig_pid: 0x1200,
        pages: vec![&page0, &page1],
    }];

    let resolved = resolve_via_execution(
        &clips,
        &mobj_file,
        Some(&table),
        &HashSet::new(),
    );

    let matching: Vec<_> = resolved
        .iter()
        .filter(|r| r.target.playlist == 212)
        .collect();
    assert_eq!(matching.len(), 1, "same PlayTarget → deduplicated to one");
    assert_eq!(
        breadcrumb_ids(&matching[0].breadcrumb),
        vec![7],
        "shortest breadcrumb (root page) wins, remapped to visible thumbnail"
    );
}

#[test]
fn nav_breadcrumb_nop_anchor_via_navigation() {
    let nav = make_button(
        1,
        vec![
            NavigationCommand::SetGpr {
                register: 50,
                value: 0,
            },
            NavigationCommand::SetGpr {
                register: 51,
                value: 1,
            },
            spec_to_other(&InsnSpec::SetButtonPage(50, 51)),
        ],
    );
    let page0 = make_page(0, vec![nav]);

    let anchor = make_button(15, vec![]);
    let page1 = make_page(1, vec![anchor]);

    let dispatch_mobj = build_dispatch_mobj(&[(10, 210), (15, 215), (20, 220)]);
    let mobj_data = MobjBuilder::new().object(&dispatch_mobj).build();
    let mobj_file = parse(&mobj_data).expect("should parse");
    let table = extract_dispatch_table(&mobj_file).expect("should extract table");

    let clips = vec![NavClipInput {
        ig_pid: 0x1200,
        pages: vec![&page0, &page1],
    }];
    let resolved = resolve_via_execution(
        &clips,
        &mobj_file,
        Some(&table),
        &HashSet::new(),
    );

    assert_eq!(resolved.len(), 1, "one anchor resolved");
    assert_eq!(resolved[0].target.playlist, 215, "anchor 15 → 215");
    assert_eq!(
        breadcrumb_ids(&resolved[0].breadcrumb),
        vec![1, 15],
        "sub-page anchor has navigation prefix"
    );
}

#[test]
fn nav_breadcrumb_shortest_path_wins() {
    let direct = make_button(5, vec![NavigationCommand::GotoMobj { object_id: 1 }]);
    let nav = make_button(
        1,
        vec![
            NavigationCommand::SetGpr {
                register: 50,
                value: 0,
            },
            NavigationCommand::SetGpr {
                register: 51,
                value: 1,
            },
            spec_to_other(&InsnSpec::SetButtonPage(50, 51)),
        ],
    );
    let page0 = make_page(0, vec![direct, nav]);

    let dup_content = make_button(5, vec![NavigationCommand::GotoMobj { object_id: 1 }]);
    let page1 = make_page(1, vec![dup_content]);

    let mobj_data = MobjBuilder::new()
        .object(&[InsnSpec::Nop])
        .object(&[InsnSpec::PlayPl(301)])
        .build();
    let mobj_file = parse(&mobj_data).expect("should parse");

    let mut valid = HashSet::new();
    valid.insert(301);

    let clips = vec![NavClipInput {
        ig_pid: 0x1200,
        pages: vec![&page0, &page1],
    }];
    let resolved = resolve_via_execution(&clips, &mobj_file, None, &valid);

    assert_eq!(resolved.len(), 1, "deduplicated to one resolution");
    assert_eq!(resolved[0].target.playlist, 301, "playlist 301");
    assert_eq!(
        breadcrumb_ids(&resolved[0].breadcrumb),
        vec![5],
        "shortest path (direct on page 0) wins"
    );
}

#[test]
fn orphan_sweep_resolves_unreachable_pages() {
    let root_content = make_button(5, vec![NavigationCommand::GotoMobj { object_id: 1 }]);
    let page0 = make_page(0, vec![root_content]);

    let orphan_anchor = make_button(15, vec![]);
    let page2 = make_page(2, vec![orphan_anchor]);

    let dispatch_mobj = build_dispatch_mobj(&[(10, 210), (15, 215), (20, 220)]);
    let mobj_data = MobjBuilder::new()
        .object(&dispatch_mobj)
        .object(&[InsnSpec::PlayPl(301)])
        .build();
    let mobj_file = parse(&mobj_data).expect("should parse");
    let table = extract_dispatch_table(&mobj_file).expect("should extract table");

    let mut valid = HashSet::new();
    valid.insert(301);

    let clips = vec![NavClipInput {
        ig_pid: 0x1200,
        pages: vec![&page0, &page2],
    }];
    let resolved = resolve_via_execution(&clips, &mobj_file, Some(&table), &valid);

    assert_eq!(resolved.len(), 2, "root content + orphan anchor");

    let root = resolved
        .iter()
        .find(|r| r.target.playlist == 301)
        .expect("should find root content");
    assert!(!root.orphan, "root page content is not orphan");

    let orphan = resolved
        .iter()
        .find(|r| r.target.playlist == 215)
        .expect("should find orphan content");
    assert!(orphan.orphan, "unreachable page content is orphan");
    assert_eq!(
        orphan.breadcrumb[0].page_id, 2,
        "orphan step carries page context"
    );
}

#[test]
fn goto_mobj_pattern_unaffected_by_visible_resolution() {
    let button_a = make_button(
        1,
        vec![
            NavigationCommand::SetGpr {
                register: 0,
                value: 1,
            },
            NavigationCommand::GotoMobj { object_id: 1 },
        ],
    );
    let button_b = make_button(
        2,
        vec![
            NavigationCommand::SetGpr {
                register: 0,
                value: 2,
            },
            NavigationCommand::GotoMobj { object_id: 2 },
        ],
    );
    let page = make_page(0, vec![button_a, button_b]);

    let mobj_data = MobjBuilder::new()
        .object(&[InsnSpec::Nop])
        .object(&[InsnSpec::PlayPl(301)])
        .object(&[InsnSpec::PlayPl(302)])
        .build();
    let mobj_file = parse(&mobj_data).expect("should parse");

    let mut valid = HashSet::new();
    valid.insert(301);
    valid.insert(302);

    let clips = vec![NavClipInput {
        ig_pid: 0x1200,
        pages: vec![&page],
    }];
    let resolved = resolve_via_execution(&clips, &mobj_file, None, &valid);

    assert_eq!(resolved.len(), 2, "two GotoMobj buttons resolved");
    let pls: HashSet<u16> =
        resolved.iter().map(|r| r.target.playlist).collect();
    assert!(pls.contains(&301), "btn[1] → 301");
    assert!(pls.contains(&302), "btn[2] → 302");
}

#[test]
fn exec_cross_clip_nop_anchors_both_preserved() {
    let anchor_a = make_button_at(15, 199, 668, vec![]);
    let thumb_a = make_button_at(
        5,
        229,
        668,
        vec![
            NavigationCommand::SetGpr {
                register: 50,
                value: 0,
            },
            NavigationCommand::SetGpr {
                register: 51,
                value: 26,
            },
            spec_to_other(&InsnSpec::SetButtonPage(50, 51)),
        ],
    );

    let anchor_b = make_button_at(15, 199, 668, vec![]);
    let thumb_b = make_button_at(
        7,
        229,
        668,
        vec![
            NavigationCommand::SetGpr {
                register: 50,
                value: 0,
            },
            NavigationCommand::SetGpr {
                register: 51,
                value: 26,
            },
            spec_to_other(&InsnSpec::SetButtonPage(50, 51)),
        ],
    );

    let dispatch_mobj = build_dispatch_mobj(&[(10, 210), (15, 215), (20, 220)]);
    let mobj_data = MobjBuilder::new().object(&dispatch_mobj).build();
    let mobj_file = parse(&mobj_data).expect("should parse");
    let table = extract_dispatch_table(&mobj_file).expect("should extract table");

    let page_a = make_page(0, vec![anchor_a, thumb_a]);
    let page_b = make_page(0, vec![anchor_b, thumb_b]);
    let clips = vec![
        NavClipInput {
            ig_pid: 0x1200,
            pages: vec![&page_a],
        },
        NavClipInput {
            ig_pid: 0x1201,
            pages: vec![&page_b],
        },
    ];

    let resolved = resolve_via_execution(
        &clips,
        &mobj_file,
        Some(&table),
        &HashSet::new(),
    );

    let matching: Vec<_> = resolved
        .iter()
        .filter(|r| r.target.playlist == 215)
        .collect();
    assert_eq!(
        matching.len(),
        2,
        "same playlist from two clips → both preserved"
    );

    let clip_indices: HashSet<usize> = matching
        .iter()
        .map(|r| {
            r.breadcrumb
                .last()
                .expect("breadcrumb should not be empty")
                .clip_index
        })
        .collect();
    assert!(clip_indices.contains(&0), "clip 0 resolution preserved");
    assert!(clip_indices.contains(&1), "clip 1 resolution preserved");
}

#[test]
fn exec_same_clip_still_deduplicates() {
    let anchor_p0 = make_button_at(12, 199, 668, vec![]);
    let thumb_p0 = make_button_at(
        7,
        229,
        668,
        vec![
            NavigationCommand::SetGpr {
                register: 50,
                value: 0,
            },
            NavigationCommand::SetGpr {
                register: 51,
                value: 26,
            },
            spec_to_other(&InsnSpec::SetButtonPage(50, 51)),
        ],
    );
    let anchor_p1 = make_button(12, vec![]);

    let dispatch_mobj = build_dispatch_mobj(&[(12, 212), (15, 215), (20, 220)]);
    let mobj_data = MobjBuilder::new().object(&dispatch_mobj).build();
    let mobj_file = parse(&mobj_data).expect("should parse");
    let table = extract_dispatch_table(&mobj_file).expect("should extract table");

    let page0 = make_page(0, vec![anchor_p0, thumb_p0]);
    let page1 = make_page(1, vec![anchor_p1]);
    let clips = vec![NavClipInput {
        ig_pid: 0x1200,
        pages: vec![&page0, &page1],
    }];

    let resolved = resolve_via_execution(
        &clips,
        &mobj_file,
        Some(&table),
        &HashSet::new(),
    );

    let count = resolved.iter().filter(|r| r.target.playlist == 212).count();
    assert_eq!(
        count, 1,
        "same clip, same PlayTarget → still deduplicated to one"
    );
}

#[test]
fn register_computed_page_via_seeded_gprs() {
    // End-to-end: MOBJ[0] writes GPR[3051] = 6 after a PlayPl.
    // btn[4] on page 1 reads GPR[3051] to compute the page target.
    //
    // PlayPl is skipped during seeding, GPR[3051]=6 is captured, and
    // btn[4] navigates to page 6.

    // MOBJ[0]: init block with PlayPl before GPR[3051] write
    let mobj0_instrs = vec![
        InsnSpec::SetGpr(3000, 42),
        InsnSpec::PlayPl(100), // menu start
        InsnSpec::SetGpr(3051, 6), // page config for special features
    ];

    // MOBJ[1]: dispatch table for NOP anchors (need 3+ cases)
    let dispatch_mobj = build_dispatch_mobj(&[(30, 301), (31, 302), (32, 303)]);

    let mobj_data = MobjBuilder::new()
        .object(&mobj0_instrs)
        .object(&dispatch_mobj)
        .build();
    let mobj_file = parse(&mobj_data).expect("should parse");
    let table = extract_dispatch_table(&mobj_file);

    // Page 0: root → page 1
    let root_nav = make_button(
        1,
        vec![
            NavigationCommand::SetGpr {
                register: 50,
                value: 0,
            },
            NavigationCommand::SetGpr {
                register: 51,
                value: 1,
            },
            spec_to_other(&InsnSpec::SetButtonPage(50, 51)),
        ],
    );
    let page0 = make_page(0, vec![root_nav]);

    // Page 1: btn[4] with register-computed SET_BUTTON_PAGE to page 6
    let special_features_btn = make_button(
        4,
        vec![
            NavigationCommand::SetGpr {
                register: 4075,
                value: 5,
            },
            NavigationCommand::SetGpr {
                register: 4076,
                value: 0xFFFF,
            },
            spec_to_other(&InsnSpec::SetGprReg(4077, PSR_FLAG | 0x0A)),
            spec_to_other(&InsnSpec::AndReg(4077, 4076)),
            spec_to_other(&InsnSpec::AddReg(4077, 4075)),
            spec_to_other(&InsnSpec::SetGprReg(4075, 3051)),
            spec_to_other(&InsnSpec::SetButtonPage(4077, 4075)),
        ],
    );
    let page1 = make_page(1, vec![special_features_btn]);

    // Page 6: special features (NOP anchors with text labels)
    let extras_a = make_button(31, vec![]);
    let extras_b = make_button(32, vec![]);
    let extras_c = make_button(30, vec![]);
    let page6 = make_page(6, vec![extras_a, extras_b, extras_c]);

    let clips = vec![NavClipInput {
        ig_pid: 0x1200,
        pages: vec![&page0, &page1, &page6],
    }];

    let resolved = resolve_via_execution(
        &clips,
        &mobj_file,
        table.as_ref(),
        &valid_set(&[301, 302, 303]),
    );

    // Extras should resolve via page 6 through btn[4]
    let extras: Vec<_> = resolved
        .iter()
        .filter(|r| !r.orphan && r.target.playlist == 302)
        .collect();
    assert_eq!(extras.len(), 1, "extras PL 302 resolved via navigation");

    let crumb = breadcrumb_ids(&extras[0].breadcrumb);
    assert!(
        crumb.contains(&4),
        "extras breadcrumb includes btn[4]: {crumb:?}"
    );

    let last_step = extras[0].breadcrumb.last().expect("non-empty breadcrumb");
    assert_eq!(
        last_step.page_id, 6,
        "extras breadcrumb ends on page 6 (text labels, not filmstrips)"
    );
}

/// Builds a valid playlist set from a slice of playlist numbers.
fn valid_set(playlists: &[u32]) -> HashSet<u32> {
    playlists.iter().copied().collect()
}
