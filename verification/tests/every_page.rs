//! Menu resolution with every page taken as an entry.
use std::collections::HashSet;

use reliquary_bdmv::mobj::every_page::resolve_via_execution;
use reliquary_bdmv::mobj::{
    command_to_instruction, extract_dispatch_table, find_dispatch_entries, parse, resolve_buttons,
    BreadcrumbStep, DispatchEntry, NavClipInput, PlayerContext, BRANCH_JUMP, BRANCH_PLAY,
    GRP_BRANCH, GRP_SET, PSR_FLAG,
};
use reliquary_bdmv::nav::{Button, NavigationCommand, Page};

fn make_button(button_id: u16, commands: Vec<NavigationCommand>) -> Button {
    Button {
        button_id,
        x: 0,
        y: 0,
        upper_button_id: 0,
        lower_button_id: 0,
        left_button_id: 0,
        right_button_id: 0,
        normal_object_id: 0,
        selected_object_id: 0,
        commands,
        bog_id: 0,
    }
}

fn make_button_at(
    button_id: u16,
    x: u16,
    y: u16,
    commands: Vec<NavigationCommand>,
) -> Button {
    Button {
        button_id,
        x,
        y,
        upper_button_id: 0,
        lower_button_id: 0,
        left_button_id: 0,
        right_button_id: 0,
        normal_object_id: 0,
        selected_object_id: 0,
        commands,
        bog_id: 0,
    }
}

/// Creates a button with explicit neighbor navigation fields.
fn make_button_with_neighbors(
    button_id: u16,
    x: u16,
    y: u16,
    neighbors: [u16; 4],
    commands: Vec<NavigationCommand>,
) -> Button {
    Button {
        button_id,
        x,
        y,
        upper_button_id: neighbors[0],
        lower_button_id: neighbors[1],
        left_button_id: neighbors[2],
        right_button_id: neighbors[3],
        normal_object_id: 0,
        selected_object_id: 0,
        commands,
        bog_id: 0,
    }
}

fn make_page(page_id: u8, buttons: Vec<Button>) -> Page {
    Page { page_id, buttons }
}

/// Extracts button IDs from a breadcrumb for concise assertions.
fn breadcrumb_ids(crumb: &[BreadcrumbStep]) -> Vec<u16> {
    crumb.iter().map(|s| s.button_id).collect()
}

/// Builds a synthetic `MovieObject.bdmv` binary for testing.
struct MobjBuilder {
    objects: Vec<Vec<InsnSpec>>,
}

/// Specification for a test instruction.
#[derive(Clone)]
enum InsnSpec {
    /// `PlayPl` with immediate playlist number.
    PlayPl(u32),
    /// `PlayPl` with register operand — `PlayPl(GPR[reg])`.
    PlayPlReg(u32),
    /// `SetGpr`: register = immediate value.
    SetGpr(u32, u32),
    /// `SetGpr`: dst register = src register (register-to-register move).
    SetGprReg(u32, u32),
    /// CMP: compare `GPR[register]` == immediate value.
    CmpEq(u32, u32),
    /// CMP: compare `GPR[dst]` == `GPR[src]` (register-to-register).
    CmpEqReg(u32, u32),
    /// GOTO: unconditional branch to instruction index.
    Goto(u32),
    /// GOTO: conditional branch (taken if last CMP was true).
    GotoIf(u32),
    /// `GotoMobj`: jump to movie object (`BRANCH_JUMP`, `imm_op1=1`).
    GotoMobj(u32),
    /// AND: `GPR[dst] &= GPR[src]` (register-to-register).
    AndReg(u32, u32),
    /// ADD: `GPR[dst] += GPR[src]` (register-to-register).
    AddReg(u32, u32),
    /// SETSYSTEM `SET_BUTTON_PAGE(GPR[dst], GPR[src])`.
    SetButtonPage(u32, u32),
    /// Nop (all zeros).
    Nop,
}

impl MobjBuilder {
    fn new() -> Self {
        Self {
            objects: Vec::new(),
        }
    }

    fn object(mut self, instructions: &[InsnSpec]) -> Self {
        self.objects.push(instructions.to_vec());
        self
    }

    fn build(self) -> Vec<u8> {
        let mut data = Vec::new();

        // Header: "MOBJ" + version "0200" + extension_data_start(4)
        // + reserved(28) + length(4) + reserved(4) + num_objects(2)
        data.extend_from_slice(b"MOBJ");
        data.extend_from_slice(b"0200"); // version
        data.extend_from_slice(&0u32.to_be_bytes()); // extension_data_start
        data.extend_from_slice(&[0u8; 28]); // reserved
        // length — we'll fill this later
        let length_offset = data.len();
        data.extend_from_slice(&0u32.to_be_bytes()); // placeholder
        data.extend_from_slice(&0u32.to_be_bytes()); // reserved

        let num_objects = self.objects.len() as u16;
        data.extend_from_slice(&num_objects.to_be_bytes());

        for obj_instrs in &self.objects {
            // Object header: 2 bytes flags/reserved + 2 bytes num_commands
            data.extend_from_slice(&[0u8; 2]); // flags + reserved
            let num_cmds = obj_instrs.len() as u16;
            data.extend_from_slice(&num_cmds.to_be_bytes());

            for insn in obj_instrs {
                build_instruction(&mut data, insn);
            }
        }

        // Fill in length field (remaining data after offset 44)
        let length = (data.len() - length_offset - 4) as u32;
        data[length_offset..length_offset + 4].copy_from_slice(&length.to_be_bytes());

        data
    }
}

fn build_instruction(buf: &mut Vec<u8>, spec: &InsnSpec) {
    match spec {
        InsnSpec::PlayPl(playlist) => {
            // grp=0 (BRANCH), sub_grp=2 (PLAY), op_cnt=1, imm_op1=1
            let insn: u32 = 0x2280_0000;
            buf.extend_from_slice(&insn.to_be_bytes());
            buf.extend_from_slice(&playlist.to_be_bytes()); // dst
            buf.extend_from_slice(&0u32.to_be_bytes()); // src
        }
        InsnSpec::SetGpr(register, value) => {
            // grp=2 (SET), sub_grp=0, op_cnt=2, imm_op2=1, set_opt=1 (MOVE)
            let insn: u32 = 0x5040_0001;
            buf.extend_from_slice(&insn.to_be_bytes());
            buf.extend_from_slice(&register.to_be_bytes());
            buf.extend_from_slice(&value.to_be_bytes());
        }
        InsnSpec::CmpEq(register, value) => {
            // grp=1 (CMP), sub_grp=0, op_cnt=2, imm_op1=0 (dst=GPR),
            // imm_op2=1 (src=immediate), cmp_opt=2 (EQ)
            let insn: u32 = 0x4840_0200;
            buf.extend_from_slice(&insn.to_be_bytes());
            buf.extend_from_slice(&register.to_be_bytes()); // dst = GPR ref
            buf.extend_from_slice(&value.to_be_bytes()); // src = immediate
        }
        InsnSpec::PlayPlReg(register) => {
            // grp=0 (BRANCH), sub_grp=2 (PLAY), op_cnt=1, imm_op1=0
            let insn: u32 = 0x2200_0000;
            buf.extend_from_slice(&insn.to_be_bytes());
            buf.extend_from_slice(&register.to_be_bytes()); // dst = GPR ref
            buf.extend_from_slice(&0u32.to_be_bytes());
        }
        InsnSpec::SetGprReg(dst_reg, src_reg) => {
            // grp=2 (SET), sub_grp=0, op_cnt=2, imm_op1=0, imm_op2=0, set_opt=1 (MOVE)
            let insn: u32 = 0x5000_0001;
            buf.extend_from_slice(&insn.to_be_bytes());
            buf.extend_from_slice(&dst_reg.to_be_bytes());
            buf.extend_from_slice(&src_reg.to_be_bytes());
        }
        InsnSpec::CmpEqReg(dst_reg, src_reg) => {
            // grp=1 (CMP), sub_grp=0, op_cnt=2, imm_op1=0, imm_op2=0, cmp_opt=2 (EQ)
            let insn: u32 = 0x4800_0200;
            buf.extend_from_slice(&insn.to_be_bytes());
            buf.extend_from_slice(&dst_reg.to_be_bytes());
            buf.extend_from_slice(&src_reg.to_be_bytes());
        }
        InsnSpec::Goto(target) => {
            // grp=0 (BRANCH), sub_grp=0 (GOTO), op_cnt=1, imm_op1=1,
            // branch_opt=1 (GOTO — unconditional jump)
            let insn: u32 = 0x2081_0000;
            buf.extend_from_slice(&insn.to_be_bytes());
            buf.extend_from_slice(&target.to_be_bytes());
            buf.extend_from_slice(&0u32.to_be_bytes());
        }
        InsnSpec::GotoIf(target) => {
            // grp=0 (BRANCH), sub_grp=0 (GOTO), op_cnt=1, imm_op1=1,
            // branch_opt=1 (GOTO — conditionality comes from CMP skip)
            let insn: u32 = 0x2081_0000;
            buf.extend_from_slice(&insn.to_be_bytes());
            buf.extend_from_slice(&target.to_be_bytes());
            buf.extend_from_slice(&0u32.to_be_bytes());
        }
        InsnSpec::GotoMobj(object_id) => {
            // grp=0 (BRANCH), sub_grp=1 (JUMP), op_cnt=1, imm_op1=1,
            // branch_opt=1 (GOTO)
            let insn: u32 = 0x2181_0000;
            buf.extend_from_slice(&insn.to_be_bytes());
            buf.extend_from_slice(&object_id.to_be_bytes());
            buf.extend_from_slice(&0u32.to_be_bytes());
        }
        InsnSpec::AndReg(dst_reg, src_reg) => {
            // grp=2 (SET), sub_grp=0, op_cnt=2, imm_op2=0, set_opt=9 (AND)
            let insn: u32 = 0x5000_0009;
            buf.extend_from_slice(&insn.to_be_bytes());
            buf.extend_from_slice(&dst_reg.to_be_bytes());
            buf.extend_from_slice(&src_reg.to_be_bytes());
        }
        InsnSpec::AddReg(dst_reg, src_reg) => {
            // grp=2 (SET), sub_grp=0, op_cnt=2, imm_op2=0, set_opt=3 (ADD)
            let insn: u32 = 0x5000_0003;
            buf.extend_from_slice(&insn.to_be_bytes());
            buf.extend_from_slice(&dst_reg.to_be_bytes());
            buf.extend_from_slice(&src_reg.to_be_bytes());
        }
        InsnSpec::SetButtonPage(dst_reg, src_reg) => {
            // grp=2 (SET), sub_grp=1 (SETSYSTEM), op_cnt=2,
            // imm_op1=0, imm_op2=0, set_opt=3 (SET_BUTTON_PAGE)
            let insn: u32 = 0x5100_0003;
            buf.extend_from_slice(&insn.to_be_bytes());
            buf.extend_from_slice(&dst_reg.to_be_bytes());
            buf.extend_from_slice(&src_reg.to_be_bytes());
        }
        InsnSpec::Nop => {
            buf.extend_from_slice(&[0u8; 12]);
        }
    }
}

/// Converts an `InsnSpec` to raw `(opcode, dst, src)` for building
/// `NavigationCommand::Other` from test instruction specs.
fn spec_to_raw(spec: &InsnSpec) -> (u32, u32, u32) {
    let mut buf = Vec::new();
    build_instruction(&mut buf, spec);
    let opcode = u32::from_be_bytes([buf[0], buf[1], buf[2], buf[3]]);
    let dst = u32::from_be_bytes([buf[4], buf[5], buf[6], buf[7]]);
    let src = u32::from_be_bytes([buf[8], buf[9], buf[10], buf[11]]);
    (opcode, dst, src)
}

/// Builds a `NavigationCommand::Other` from an `InsnSpec`.
fn spec_to_other(spec: &InsnSpec) -> NavigationCommand {
    let (opcode, dst, src) = spec_to_raw(spec);
    NavigationCommand::Other { opcode, dst, src }
}

/// Builds a synthetic dispatch MOBJ with the CMP/GOTO switch pattern.
///
/// Structure:
/// - Instructions 0..cases*4: switch table (4 instructions per case)
/// - Instructions cases*4..: handler blocks (SET + `PlayPl` + GOTO per case)
fn build_dispatch_mobj(cases: &[(u32, u16)]) -> Vec<InsnSpec> {
    let switch_end = cases.len() * 4;
    // +1 for exit GOTO between switch and handlers
    let handlers_start = switch_end + 1;
    let exit_pc = handlers_start + cases.len() * 3;
    let mut instrs = Vec::new();

    // Switch table: 4 instructions per case
    for (i, &(case_val, _)) in cases.iter().enumerate() {
        let handler_pc = handlers_start + i * 3;
        instrs.push(InsnSpec::SetGprReg(100, 200)); // load dispatch reg
        instrs.push(InsnSpec::SetGpr(101, case_val)); // case value
        instrs.push(InsnSpec::CmpEqReg(100, 101)); // compare
        instrs.push(InsnSpec::Goto(handler_pc as u32)); // → handler
    }

    // Exit GOTO: no match → skip all handlers (real discs have this)
    instrs.push(InsnSpec::Goto(exit_pc as u32));

    // Handler blocks: SET playlist + PlayPl + GOTO loop
    for &(_, playlist) in cases {
        instrs.push(InsnSpec::SetGpr(100, u32::from(playlist)));
        instrs.push(InsnSpec::PlayPlReg(100));
        instrs.push(InsnSpec::Goto(0)); // loop back
    }

    // Exit target
    instrs.push(InsnSpec::Nop);

    instrs
}

#[test]
fn mobj_parse_single_object() {
    let data = MobjBuilder::new().object(&[InsnSpec::PlayPl(203)]).build();

    let file = parse(&data).expect("should parse single object");
    assert_eq!(file.objects.len(), 1, "one object");
    assert_eq!(file.objects[0].instructions.len(), 1, "one instruction");

    let insn = &file.objects[0].instructions[0];
    assert_eq!(insn.group, GRP_BRANCH, "group is BRANCH");
    assert_eq!(insn.sub_group, BRANCH_PLAY, "sub_group is PLAY");
    assert_eq!(insn.dst, 203, "dst holds playlist number");
}

#[test]
fn mobj_parse_multiple_objects() {
    let data = MobjBuilder::new()
        .object(&[InsnSpec::PlayPl(201), InsnSpec::PlayPl(202)])
        .object(&[InsnSpec::Nop])
        .object(&[
            InsnSpec::CmpEq(0, 1),
            InsnSpec::Goto(4),
            InsnSpec::CmpEq(0, 2),
            InsnSpec::Goto(5),
            InsnSpec::PlayPl(301),
            InsnSpec::PlayPl(302),
        ])
        .build();

    let file = parse(&data).expect("should parse multiple objects");
    assert_eq!(file.objects.len(), 3, "three objects");
    assert_eq!(
        file.objects[0].instructions.len(),
        2,
        "object 0: two instructions"
    );
    assert_eq!(
        file.objects[1].instructions.len(),
        1,
        "object 1: one instruction"
    );
    assert_eq!(
        file.objects[2].instructions.len(),
        6,
        "object 2: six instructions"
    );
}

#[test]
fn mobj_parse_rejects_invalid_magic() {
    let mut data = MobjBuilder::new().object(&[InsnSpec::Nop]).build();
    data[0..4].copy_from_slice(b"NOPE");

    let err = parse(&data).expect_err("should reject invalid magic").message();
    assert!(
        err.contains("invalid magic"),
        "error mentions invalid magic: {err}"
    );
}

#[test]
fn mobj_parse_rejects_truncated_file() {
    let data = b"MOBJ0200";

    let err = parse(data).expect_err("should reject truncated file").message();
    assert!(
        err.contains("too small"),
        "error mentions size: {err}"
    );
}

#[test]
fn mobj_instruction_fields_decoded_correctly() {
    let data = MobjBuilder::new()
        .object(&[InsnSpec::SetGpr(3, 42)])
        .build();

    let file = parse(&data).expect("should parse SetGpr");
    let insn = &file.objects[0].instructions[0];

    assert_eq!(insn.group, GRP_SET, "group is SET");
    assert_eq!(insn.sub_group, 0, "sub_group is 0");
    assert_eq!(insn.op_cnt, 2, "op_cnt is 2");
    assert!(!insn.imm_op1, "dst is GPR reference");
    assert!(insn.imm_op2, "src is immediate");
    assert_eq!(insn.dst, 3, "dst is GPR 3");
    assert_eq!(insn.src, 42, "src is 42");
}

#[test]
fn mobj_resolve_set_gpr_goto_mobj_with_positional_pairing() {
    // MOBJ 2 has: CmpEq(GPR[0], 1), CmpEq(GPR[0], 3), CmpEq(GPR[0], 5)
    // followed by PlayPl(201), PlayPl(203), PlayPl(205).
    // Button sets GPR[0]=3, Goto MOBJ 2 → should resolve to playlist 203.
    let mobj_data = MobjBuilder::new()
        .object(&[InsnSpec::Nop]) // MOBJ 0
        .object(&[InsnSpec::Nop]) // MOBJ 1
        .object(&[
            InsnSpec::CmpEq(0, 1),
            InsnSpec::CmpEq(0, 3),
            InsnSpec::CmpEq(0, 5),
            InsnSpec::PlayPl(201),
            InsnSpec::PlayPl(203),
            InsnSpec::PlayPl(205),
        ])
        .build();

    let mobj_file = parse(&mobj_data).expect("should parse MOBJ file");

    let button = make_button(
        7,
        vec![
            NavigationCommand::SetGpr {
                register: 0,
                value: 3,
            },
            NavigationCommand::GotoMobj { object_id: 2 },
        ],
    );

    let resolved = resolve_buttons(
        &[(button, PlayerContext::default())],
        &mobj_file,
        &HashSet::new(),
        &[],
        None,
    );
    assert_eq!(resolved.len(), 1, "one button resolved");
    assert_eq!(resolved[0].button_id, 7, "button id");
    assert_eq!(resolved[0].target.playlist, 203, "resolved to playlist 203");
}

#[test]
fn mobj_resolve_set_gpr_goto_mobj_with_branch_target_pairing() {
    // MOBJ 0 has: CmpEq(GPR[0], 1) → Goto 4, CmpEq(GPR[0], 5) → Goto 5,
    // then PlayPl(201) at index 4, PlayPl(205) at index 5.
    let mobj_data = MobjBuilder::new()
        .object(&[
            InsnSpec::CmpEq(0, 1),
            InsnSpec::Goto(4),
            InsnSpec::CmpEq(0, 5),
            InsnSpec::Goto(5),
            InsnSpec::PlayPl(201),
            InsnSpec::PlayPl(205),
        ])
        .build();

    let mobj_file = parse(&mobj_data).expect("should parse MOBJ file");

    let button = make_button(
        3,
        vec![
            NavigationCommand::SetGpr {
                register: 0,
                value: 5,
            },
            NavigationCommand::GotoMobj { object_id: 0 },
        ],
    );

    let resolved = resolve_buttons(
        &[(button, PlayerContext::default())],
        &mobj_file,
        &HashSet::new(),
        &[],
        None,
    );
    assert_eq!(resolved.len(), 1, "one button resolved");
    assert_eq!(resolved[0].target.playlist, 205, "resolved to playlist 205");
}

#[test]
fn mobj_resolve_skips_button_with_direct_play_pl() {
    let mobj_data = MobjBuilder::new().object(&[InsnSpec::PlayPl(100)]).build();
    let mobj_file = parse(&mobj_data).expect("should parse");

    let button = make_button(
        1,
        vec![NavigationCommand::PlayPl {
            playlist: 100,
            branch_opt: 0,
            mark_or_pi: 0,
        }],
    );

    let resolved = resolve_buttons(
        &[(button, PlayerContext::default())],
        &mobj_file,
        &HashSet::new(),
        &[],
        None,
    );
    assert!(resolved.is_empty(), "direct PlayPl button skipped");
}

#[test]
fn mobj_resolve_returns_empty_for_unresolvable_button() {
    let mobj_data = MobjBuilder::new()
        .object(&[InsnSpec::Nop]) // MOBJ 0 has no PlayPl
        .build();
    let mobj_file = parse(&mobj_data).expect("should parse");

    let button = make_button(
        1,
        vec![
            NavigationCommand::SetGpr {
                register: 0,
                value: 5,
            },
            NavigationCommand::GotoMobj { object_id: 0 },
        ],
    );

    let resolved = resolve_buttons(
        &[(button, PlayerContext::default())],
        &mobj_file,
        &HashSet::new(),
        &[],
        None,
    );
    assert!(resolved.is_empty(), "unresolvable button not in output");
}

#[test]
fn mobj_resolve_multiple_buttons_same_mobj() {
    // Three buttons all target MOBJ 0, each setting GPR[0] to a
    // different value.
    let mobj_data = MobjBuilder::new()
        .object(&[
            InsnSpec::CmpEq(0, 1),
            InsnSpec::CmpEq(0, 2),
            InsnSpec::CmpEq(0, 3),
            InsnSpec::PlayPl(201),
            InsnSpec::PlayPl(202),
            InsnSpec::PlayPl(203),
        ])
        .build();

    let mobj_file = parse(&mobj_data).expect("should parse");

    let buttons = vec![
        make_button(
            10,
            vec![
                NavigationCommand::SetGpr {
                    register: 0,
                    value: 1,
                },
                NavigationCommand::GotoMobj { object_id: 0 },
            ],
        ),
        make_button(
            11,
            vec![
                NavigationCommand::SetGpr {
                    register: 0,
                    value: 2,
                },
                NavigationCommand::GotoMobj { object_id: 0 },
            ],
        ),
        make_button(
            12,
            vec![
                NavigationCommand::SetGpr {
                    register: 0,
                    value: 3,
                },
                NavigationCommand::GotoMobj { object_id: 0 },
            ],
        ),
    ];

    let resolved = resolve_buttons(
        &buttons
            .into_iter()
            .map(|b| (b, PlayerContext::default()))
            .collect::<Vec<_>>(),
        &mobj_file,
        &HashSet::new(),
        &[],
        None,
    );
    assert_eq!(resolved.len(), 3, "all three buttons resolved");

    assert_eq!(resolved[0].button_id, 10, "button 10");
    assert_eq!(resolved[0].target.playlist, 201, "button 10 → playlist 201");

    assert_eq!(resolved[1].button_id, 11, "button 11");
    assert_eq!(resolved[1].target.playlist, 202, "button 11 → playlist 202");

    assert_eq!(resolved[2].button_id, 12, "button 12");
    assert_eq!(resolved[2].target.playlist, 203, "button 12 → playlist 203");
}

#[test]
fn mobj_resolve_unconditional_single_play_pl() {
    // MOBJ with a single PlayPl and no CMP — unconditional play.
    let mobj_data = MobjBuilder::new().object(&[InsnSpec::PlayPl(500)]).build();
    let mobj_file = parse(&mobj_data).expect("should parse");

    let button = make_button(
        1,
        vec![
            NavigationCommand::SetGpr {
                register: 0,
                value: 99,
            },
            NavigationCommand::GotoMobj { object_id: 0 },
        ],
    );

    let resolved = resolve_buttons(
        &[(button, PlayerContext::default())],
        &mobj_file,
        &HashSet::new(),
        &[],
        None,
    );
    assert_eq!(resolved.len(), 1, "resolved via unconditional fallback");
    assert_eq!(resolved[0].target.playlist, 500, "playlist 500");
}

#[test]
fn mobj_resolve_out_of_bounds_mobj_returns_empty() {
    let mobj_data = MobjBuilder::new().object(&[InsnSpec::Nop]).build();
    let mobj_file = parse(&mobj_data).expect("should parse");

    let button = make_button(
        1,
        vec![
            NavigationCommand::SetGpr {
                register: 0,
                value: 1,
            },
            NavigationCommand::GotoMobj { object_id: 99 }, // out of bounds
        ],
    );

    let resolved = resolve_buttons(
        &[(button, PlayerContext::default())],
        &mobj_file,
        &HashSet::new(),
        &[],
        None,
    );
    assert!(resolved.is_empty(), "out-of-bounds MOBJ not resolved");
}

#[test]
fn mobj_vm_resolves_gpr_dispatch_pattern() {
    // Warner Bros. style: button sets GPR[4075]=5, MOBJ compares
    // GPR[4075] against GPR[4076], then overwrites GPR[4075] with
    // the actual playlist number and calls PlayPl(GPR[4075]).
    let mobj_data = MobjBuilder::new()
        .object(&[
            // Case 1: GPR[4076]=1, compare, set playlist 201
            InsnSpec::SetGpr(4076, 1),
            InsnSpec::CmpEqReg(4075, 4076),
            InsnSpec::GotoIf(6),
            // Case 2: GPR[4076]=5, compare, set playlist 205
            InsnSpec::SetGpr(4076, 5),
            InsnSpec::CmpEqReg(4075, 4076),
            InsnSpec::GotoIf(9),
            // PlayPl for case 1
            InsnSpec::SetGpr(4075, 201),
            InsnSpec::PlayPlReg(4075),
            InsnSpec::Nop, // unreachable
            // PlayPl for case 2
            InsnSpec::SetGpr(4075, 205),
            InsnSpec::PlayPlReg(4075),
        ])
        .build();

    let mobj_file = parse(&mobj_data).expect("should parse");

    // Button sets GPR[4075]=5 → should resolve to playlist 205
    let button = make_button(
        7,
        vec![NavigationCommand::SetGpr {
            register: 4075,
            value: 5,
        }],
    );

    let resolved = resolve_buttons(
        &[(button, PlayerContext::default())],
        &mobj_file,
        &HashSet::new(),
        &[],
        None,
    );
    assert_eq!(resolved.len(), 1, "one button resolved");
    assert_eq!(resolved[0].target.playlist, 205, "resolved to playlist 205");
}

#[test]
fn mobj_vm_resolves_multiple_buttons_gpr_dispatch() {
    // Three buttons with different dispatch keys, all resolved by
    // the same MOBJ.
    let mobj_data = MobjBuilder::new()
        .object(&[
            InsnSpec::SetGpr(4076, 1),      // 0
            InsnSpec::CmpEqReg(4075, 4076), // 1
            InsnSpec::GotoIf(10),           // 2: → handler 1
            InsnSpec::SetGpr(4076, 2),      // 3
            InsnSpec::CmpEqReg(4075, 4076), // 4
            InsnSpec::GotoIf(13),           // 5: → handler 2
            InsnSpec::SetGpr(4076, 3),      // 6
            InsnSpec::CmpEqReg(4075, 4076), // 7
            InsnSpec::GotoIf(16),           // 8: → handler 3
            InsnSpec::Goto(18),             // 9: no match → end
            InsnSpec::SetGpr(4075, 201),    // 10: handler 1
            InsnSpec::PlayPlReg(4075),      // 11
            InsnSpec::Goto(18),             // 12: → end
            InsnSpec::SetGpr(4075, 202),    // 13: handler 2
            InsnSpec::PlayPlReg(4075),      // 14
            InsnSpec::Goto(18),             // 15: → end
            InsnSpec::SetGpr(4075, 203),    // 16: handler 3
            InsnSpec::PlayPlReg(4075),      // 17
            InsnSpec::Nop,                  // 18: end
        ])
        .build();

    let mobj_file = parse(&mobj_data).expect("should parse");
    let valid_playlists: HashSet<u32> = [201, 202, 203].into();

    let buttons = vec![
        make_button(
            10,
            vec![NavigationCommand::SetGpr {
                register: 4075,
                value: 1,
            }],
        ),
        make_button(
            11,
            vec![NavigationCommand::SetGpr {
                register: 4075,
                value: 2,
            }],
        ),
        make_button(
            12,
            vec![NavigationCommand::SetGpr {
                register: 4075,
                value: 3,
            }],
        ),
    ];

    let resolved = resolve_buttons(
        &buttons
            .into_iter()
            .map(|b| (b, PlayerContext::default()))
            .collect::<Vec<_>>(),
        &mobj_file,
        &valid_playlists,
        &[],
        None,
    );
    assert_eq!(resolved.len(), 3, "all three buttons resolved");
    assert_eq!(resolved[0].target.playlist, 201, "button 10 → 201");
    assert_eq!(resolved[1].target.playlist, 202, "button 11 → 202");
    assert_eq!(resolved[2].target.playlist, 203, "button 12 → 203");
}

#[test]
fn mobj_vm_skips_mobj_without_register_play_pl() {
    // MOBJ 0 has only immediate PlayPl (no register-based).
    // MOBJ 1 has the register-based dispatch.
    // The VM should skip MOBJ 0 and find the match in MOBJ 1.
    let mobj_data = MobjBuilder::new()
        .object(&[InsnSpec::PlayPl(999)]) // immediate only
        .object(&[
            InsnSpec::SetGpr(4076, 5),
            InsnSpec::CmpEqReg(4075, 4076),
            InsnSpec::GotoIf(5),
            InsnSpec::Nop,
            InsnSpec::Nop,
            InsnSpec::SetGpr(4075, 300),
            InsnSpec::PlayPlReg(4075),
        ])
        .build();

    let mobj_file = parse(&mobj_data).expect("should parse");

    let button = make_button(
        1,
        vec![NavigationCommand::SetGpr {
            register: 4075,
            value: 5,
        }],
    );

    let resolved = resolve_buttons(
        &[(button, PlayerContext::default())],
        &mobj_file,
        &HashSet::new(),
        &[],
        None,
    );
    assert_eq!(resolved.len(), 1, "resolved via MOBJ 1");
    assert_eq!(resolved[0].target.playlist, 300, "playlist 300");
}

#[test]
fn mobj_vm_no_match_returns_empty() {
    // Button sets GPR[4075]=99 but MOBJ only handles value 1.
    // When CMP fails, execution skips past the PlayPl block.
    let mobj_data = MobjBuilder::new()
        .object(&[
            InsnSpec::SetGpr(4076, 1),      // 0: expected key
            InsnSpec::CmpEqReg(4075, 4076), // 1: compare
            InsnSpec::GotoIf(4),            // 2: if match → 4
            InsnSpec::Goto(6),              // 3: else skip past PlayPl
            InsnSpec::SetGpr(4075, 201),    // 4: set playlist
            InsnSpec::PlayPlReg(4075),      // 5: play
            InsnSpec::Nop,                  // 6: end
        ])
        .build();

    let mobj_file = parse(&mobj_data).expect("should parse");

    let button = make_button(
        1,
        vec![NavigationCommand::SetGpr {
            register: 4075,
            value: 99,
        }],
    );

    let resolved = resolve_buttons(
        &[(button, PlayerContext::default())],
        &mobj_file,
        &HashSet::new(),
        &[],
        None,
    );
    assert!(resolved.is_empty(), "unmatched dispatch key not resolved");
}

#[test]
fn mobj_vm_handles_register_to_register_set() {
    // MOBJ copies a value between registers before PlayPl.
    let mobj_data = MobjBuilder::new()
        .object(&[
            InsnSpec::SetGprReg(100, 4075), // GPR[100] = GPR[4075]
            InsnSpec::PlayPlReg(100),       // PlayPl(GPR[100])
        ])
        .build();

    let mobj_file = parse(&mobj_data).expect("should parse");

    let button = make_button(
        1,
        vec![NavigationCommand::SetGpr {
            register: 4075,
            value: 203,
        }],
    );

    let resolved = resolve_buttons(
        &[(button, PlayerContext::default())],
        &mobj_file,
        &HashSet::new(),
        &[],
        None,
    );
    assert_eq!(resolved.len(), 1, "resolved via register copy");
    assert_eq!(resolved[0].target.playlist, 203, "playlist 203");
}

#[test]
fn mobj_find_dispatch_entries_finds_menu_play_pl() {
    // MOBJ 0: PlayPl(800) at index 2, where 800 is a menu playlist.
    // Dispatch entry should be (mobj=0, pc=3).
    let mobj_data = MobjBuilder::new()
        .object(&[
            InsnSpec::Nop,             // 0: init
            InsnSpec::Nop,             // 1: init
            InsnSpec::PlayPl(800),     // 2: play menu playlist
            InsnSpec::Nop,             // 3: dispatch starts here
            InsnSpec::PlayPlReg(4075), // 4: content PlayPl
        ])
        .build();

    let mobj_file = parse(&mobj_data).expect("should parse");
    let menu_playlists: HashSet<u32> = [800].into();

    let entries = find_dispatch_entries(&mobj_file, &menu_playlists);
    assert_eq!(entries.len(), 1, "one dispatch entry");
    assert_eq!(entries[0].mobj_index, 0, "mobj index");
    assert_eq!(entries[0].dispatch_pc, 3, "dispatch pc is 3");
}

#[test]
fn mobj_find_dispatch_entries_ignores_non_menu_play_pl() {
    // MOBJ has PlayPl(201) but 201 is not a menu playlist.
    let mobj_data = MobjBuilder::new()
        .object(&[InsnSpec::PlayPl(201), InsnSpec::Nop])
        .build();

    let mobj_file = parse(&mobj_data).expect("should parse");
    let menu_playlists: HashSet<u32> = [800].into();

    let entries = find_dispatch_entries(&mobj_file, &menu_playlists);
    assert!(entries.is_empty(), "no entries for non-menu PlayPl");
}

#[test]
fn mobj_find_dispatch_entries_ignores_last_instruction() {
    // PlayPl(800) is the last instruction — no room for dispatch_pc.
    let mobj_data = MobjBuilder::new().object(&[InsnSpec::PlayPl(800)]).build();

    let mobj_file = parse(&mobj_data).expect("should parse");
    let menu_playlists: HashSet<u32> = [800].into();

    let entries = find_dispatch_entries(&mobj_file, &menu_playlists);
    assert!(
        entries.is_empty(),
        "no entry when PlayPl is last instruction"
    );
}

#[test]
fn mobj_find_dispatch_entries_multiple_mobjs() {
    // Two MOBJs each with a menu PlayPl.
    let mobj_data = MobjBuilder::new()
        .object(&[
            InsnSpec::PlayPl(800), // 0: menu
            InsnSpec::Nop,         // 1: dispatch
        ])
        .object(&[
            InsnSpec::Nop,         // 0: init
            InsnSpec::PlayPl(801), // 1: menu
            InsnSpec::Nop,         // 2: dispatch
        ])
        .build();

    let mobj_file = parse(&mobj_data).expect("should parse");
    let menu_playlists: HashSet<u32> = [800, 801].into();

    let entries = find_dispatch_entries(&mobj_file, &menu_playlists);
    assert_eq!(entries.len(), 2, "two dispatch entries");
    assert_eq!(entries[0].mobj_index, 0, "first entry: mobj 0");
    assert_eq!(entries[0].dispatch_pc, 1, "first entry: pc 1");
    assert_eq!(entries[1].mobj_index, 1, "second entry: mobj 1");
    assert_eq!(entries[1].dispatch_pc, 2, "second entry: pc 2");
}

#[test]
fn mobj_dispatch_entry_resolves_warner_bros_pattern() {
    // Simulates the Warner Bros. authoring pattern:
    // - Initialization code (instructions 0–4) that clobbers GPR[4075]
    // - PlayPl(800) at instruction 5 (menu playlist, suspends MOBJ)
    // - Dispatch logic at instruction 6+ (resumes after button press)
    let mobj_data = MobjBuilder::new()
        .object(&[
            // Initialization — clobbers GPR[4075]
            InsnSpec::SetGpr(4075, 0), // 0: clear dispatch key
            InsnSpec::SetGpr(4076, 0), // 1: clear scratch
            InsnSpec::SetGpr(4077, 0), // 2: clear scratch
            InsnSpec::Nop,             // 3: init
            InsnSpec::Nop,             // 4: init
            InsnSpec::PlayPl(800),     // 5: play menu (suspends)
            // Dispatch logic — resumes here after button activation
            InsnSpec::SetGpr(4076, 1),      // 6: case key = 1
            InsnSpec::CmpEqReg(4075, 4076), // 7: GPR[4075] == 1?
            InsnSpec::GotoIf(17),           // 8: → handler 1
            InsnSpec::SetGpr(4076, 2),      // 9: case key = 2
            InsnSpec::CmpEqReg(4075, 4076), // 10: GPR[4075] == 2?
            InsnSpec::GotoIf(20),           // 11: → handler 2
            InsnSpec::SetGpr(4076, 3),      // 12: case key = 3
            InsnSpec::CmpEqReg(4075, 4076), // 13: GPR[4075] == 3?
            InsnSpec::GotoIf(23),           // 14: → handler 3
            InsnSpec::Goto(25),             // 15: no match → end
            InsnSpec::Nop,                  // 16: pad
            InsnSpec::SetGpr(4075, 201),    // 17: handler 1
            InsnSpec::PlayPlReg(4075),      // 18: play
            InsnSpec::Goto(25),             // 19: → end
            InsnSpec::SetGpr(4075, 202),    // 20: handler 2
            InsnSpec::PlayPlReg(4075),      // 21: play
            InsnSpec::Goto(25),             // 22: → end
            InsnSpec::SetGpr(4075, 203),    // 23: handler 3
            InsnSpec::PlayPlReg(4075),      // 24: play
            InsnSpec::Nop,                  // 25: end
        ])
        .build();

    let mobj_file = parse(&mobj_data).expect("should parse");

    // Only content playlists are valid — menu playlist 800 is excluded.
    let valid_playlists: HashSet<u32> = [201, 202, 203].into();

    // Without dispatch entries, the lifecycle simulation still works:
    // it executes from instruction 0, hits PlayPl(800) (non-valid),
    // re-applies button GPR[4075]=2, and continues to the dispatch.
    let button_lifecycle = make_button(
        1,
        vec![NavigationCommand::SetGpr {
            register: 4075,
            value: 2,
        }],
    );
    let lifecycle_result = resolve_buttons(
        &[(button_lifecycle, PlayerContext::default())],
        &mobj_file,
        &valid_playlists,
        &[], // no dispatch entries — lifecycle simulation handles it
        None,
    );
    assert_eq!(
        lifecycle_result.len(),
        1,
        "lifecycle simulation resolves without dispatch entries"
    );
    assert_eq!(
        lifecycle_result[0].target.playlist, 202,
        "lifecycle: button key=2 → playlist 202"
    );

    // With dispatch entries (PlayPl(800) is the menu playlist),
    // the VM starts at instruction 6, skipping initialization.
    let dispatch_entries = vec![DispatchEntry {
        mobj_index: 0,
        dispatch_pc: 6,
    }];

    let button = make_button(
        1,
        vec![NavigationCommand::SetGpr {
            register: 4075,
            value: 2,
        }],
    );

    let resolved = resolve_buttons(
        &[(button, PlayerContext::default())],
        &mobj_file,
        &valid_playlists,
        &dispatch_entries,
        None,
    );
    assert_eq!(resolved.len(), 1, "resolved with dispatch entry");
    assert_eq!(
        resolved[0].target.playlist, 202,
        "button key=2 → playlist 202"
    );
}

#[test]
fn mobj_dispatch_entry_resolves_multiple_buttons() {
    // Three buttons with different dispatch keys, resolved via the
    // same dispatch entry point.
    let mobj_data = MobjBuilder::new()
        .object(&[
            InsnSpec::SetGpr(4075, 0), // 0: init clobbers
            InsnSpec::PlayPl(800),     // 1: menu
            // Dispatch at pc=2
            InsnSpec::SetGpr(4076, 10),     // 2: case 10
            InsnSpec::CmpEqReg(4075, 4076), // 3
            InsnSpec::GotoIf(11),           // 4: → handler 10
            InsnSpec::SetGpr(4076, 20),     // 5: case 20
            InsnSpec::CmpEqReg(4075, 4076), // 6
            InsnSpec::GotoIf(14),           // 7: → handler 20
            InsnSpec::SetGpr(4076, 30),     // 8: case 30
            InsnSpec::CmpEqReg(4075, 4076), // 9
            InsnSpec::GotoIf(17),           // 10: → handler 30
            InsnSpec::SetGpr(4075, 301),    // 11: handler 10
            InsnSpec::PlayPlReg(4075),      // 12
            InsnSpec::Goto(19),             // 13: → end
            InsnSpec::SetGpr(4075, 302),    // 14: handler 20
            InsnSpec::PlayPlReg(4075),      // 15
            InsnSpec::Goto(19),             // 16: → end
            InsnSpec::SetGpr(4075, 303),    // 17: handler 30
            InsnSpec::PlayPlReg(4075),      // 18
            InsnSpec::Nop,                  // 19: end
        ])
        .build();

    let mobj_file = parse(&mobj_data).expect("should parse");

    let dispatch_entries = vec![DispatchEntry {
        mobj_index: 0,
        dispatch_pc: 2,
    }];

    let buttons = vec![
        make_button(
            1,
            vec![NavigationCommand::SetGpr {
                register: 4075,
                value: 10,
            }],
        ),
        make_button(
            2,
            vec![NavigationCommand::SetGpr {
                register: 4075,
                value: 20,
            }],
        ),
        make_button(
            3,
            vec![NavigationCommand::SetGpr {
                register: 4075,
                value: 30,
            }],
        ),
    ];

    let resolved = resolve_buttons(
        &buttons
            .into_iter()
            .map(|b| (b, PlayerContext::default()))
            .collect::<Vec<_>>(),
        &mobj_file,
        &HashSet::new(),
        &dispatch_entries,
        None,
    );
    assert_eq!(resolved.len(), 3, "all three buttons resolved");
    assert_eq!(resolved[0].target.playlist, 301, "key 10 → 301");
    assert_eq!(resolved[1].target.playlist, 302, "key 20 → 302");
    assert_eq!(resolved[2].target.playlist, 303, "key 30 → 303");
}

#[test]
fn mobj_dispatch_entry_end_to_end_with_find() {
    // End-to-end: build an MOBJ, find dispatch entries, resolve buttons.
    let mobj_data = MobjBuilder::new()
        .object(&[
            InsnSpec::SetGpr(4075, 0), // 0: init
            InsnSpec::PlayPl(800),     // 1: menu playlist
            // Dispatch at pc=2
            InsnSpec::SetGpr(4076, 5),      // 2
            InsnSpec::CmpEqReg(4075, 4076), // 3
            InsnSpec::GotoIf(7),            // 4
            InsnSpec::Nop,                  // 5
            InsnSpec::Nop,                  // 6
            InsnSpec::SetGpr(4075, 205),    // 7
            InsnSpec::PlayPlReg(4075),      // 8
        ])
        .build();

    let mobj_file = parse(&mobj_data).expect("should parse");

    // Find dispatch entries using the menu playlist set
    let menu_playlists: HashSet<u32> = [800].into();
    let dispatch_entries = find_dispatch_entries(&mobj_file, &menu_playlists);
    assert_eq!(dispatch_entries.len(), 1, "one dispatch entry found");
    assert_eq!(dispatch_entries[0].dispatch_pc, 2, "dispatch_pc = 2");

    let button = make_button(
        7,
        vec![NavigationCommand::SetGpr {
            register: 4075,
            value: 5,
        }],
    );

    let resolved = resolve_buttons(
        &[(button, PlayerContext::default())],
        &mobj_file,
        &HashSet::new(),
        &dispatch_entries,
        None,
    );
    assert_eq!(resolved.len(), 1, "resolved via dispatch entry");
    assert_eq!(resolved[0].target.playlist, 205, "key 5 → playlist 205");
}

#[test]
fn mobj_dispatch_entry_goto_mobj_unaffected() {
    // GotoMobj buttons should still work when dispatch entries exist.
    let mobj_data = MobjBuilder::new()
        .object(&[
            InsnSpec::PlayPl(800), // 0: menu PlayPl
            InsnSpec::Nop,         // 1: dispatch
        ])
        .object(&[InsnSpec::PlayPl(201)]) // MOBJ 1: target
        .build();

    let mobj_file = parse(&mobj_data).expect("should parse");

    let dispatch_entries = vec![DispatchEntry {
        mobj_index: 0,
        dispatch_pc: 1,
    }];

    // GotoMobj button — should resolve via static path, not dispatch
    let button = make_button(
        1,
        vec![
            NavigationCommand::SetGpr {
                register: 0,
                value: 1,
            },
            NavigationCommand::GotoMobj { object_id: 1 },
        ],
    );

    let resolved = resolve_buttons(
        &[(button, PlayerContext::default())],
        &mobj_file,
        &HashSet::new(),
        &dispatch_entries,
        None,
    );
    assert_eq!(resolved.len(), 1, "GotoMobj still works");
    assert_eq!(resolved[0].target.playlist, 201, "resolved via GotoMobj");
}

#[test]
fn mobj_extract_dispatch_table_three_cases() {
    let dispatch_mobj = build_dispatch_mobj(&[(0, 201), (1, 202), (2, 203)]);
    let mobj_data = MobjBuilder::new().object(&dispatch_mobj).build();

    let mobj_file = parse(&mobj_data).expect("should parse dispatch MOBJ");
    let table = extract_dispatch_table(&mobj_file).expect("should extract dispatch table");

    assert_eq!(table.mobj_index, 0, "dispatch MOBJ is index 0");
    assert_eq!(
        table.dispatch_register, 200,
        "dispatch register is GPR[200]"
    );
    assert_eq!(table.cases.len(), 3, "three cases");
    assert_eq!(table.cases[0], (0, 201), "case 0 → playlist 201");
    assert_eq!(table.cases[1], (1, 202), "case 1 → playlist 202");
    assert_eq!(table.cases[2], (2, 203), "case 2 → playlist 203");
}

#[test]
fn mobj_extract_dispatch_table_with_init_code() {
    // Init code before the switch table — should still extract correctly.
    let mut instrs = vec![
        InsnSpec::SetGpr(200, 0), // init: clear dispatch register
        InsnSpec::SetGpr(100, 0), // init: clear scratch
        InsnSpec::Nop,            // init: pad
    ];
    // 3 init instructions, then switch at 3..15, handlers at 15..
    let cases: [(u32, u16); 3] = [(5, 301), (10, 302), (15, 303)];
    let switch_start = instrs.len();
    for (i, &(case_val, _)) in cases.iter().enumerate() {
        let handler_pc = switch_start + cases.len() * 4 + i * 3;
        instrs.push(InsnSpec::SetGprReg(100, 200));
        instrs.push(InsnSpec::SetGpr(101, case_val));
        instrs.push(InsnSpec::CmpEqReg(100, 101));
        instrs.push(InsnSpec::Goto(handler_pc as u32));
    }
    for &(_, playlist) in &cases {
        instrs.push(InsnSpec::SetGpr(100, u32::from(playlist)));
        instrs.push(InsnSpec::PlayPlReg(100));
        instrs.push(InsnSpec::Goto(0));
    }

    let mobj_data = MobjBuilder::new().object(&instrs).build();
    let mobj_file = parse(&mobj_data).expect("should parse");
    let table = extract_dispatch_table(&mobj_file).expect("should extract table");

    assert_eq!(table.cases.len(), 3, "three cases despite init code");
    assert_eq!(table.cases[0], (5, 301), "case 5 → 301");
    assert_eq!(table.cases[1], (10, 302), "case 10 → 302");
    assert_eq!(table.cases[2], (15, 303), "case 15 → 303");
}

#[test]
fn mobj_extract_dispatch_table_picks_mobj_with_most_handlers() {
    // MOBJ 0: small (1 PlayPl), MOBJ 1: dispatch table (4 cases)
    let small_mobj = vec![InsnSpec::PlayPl(999)];
    let dispatch_mobj = build_dispatch_mobj(&[(0, 201), (1, 202), (2, 203), (3, 204)]);

    let mobj_data = MobjBuilder::new()
        .object(&small_mobj)
        .object(&dispatch_mobj)
        .build();

    let mobj_file = parse(&mobj_data).expect("should parse");
    let table = extract_dispatch_table(&mobj_file).expect("should extract table");

    assert_eq!(table.mobj_index, 1, "picked MOBJ 1 (more handlers)");
    assert_eq!(table.cases.len(), 4, "four cases");
}

#[test]
fn mobj_extract_dispatch_table_none_for_goto_mobj_disc() {
    // GotoMobj-style disc: no CMP/GOTO switch pattern, only simple MOBJs.
    let mobj_data = MobjBuilder::new()
        .object(&[InsnSpec::PlayPl(201)])
        .object(&[InsnSpec::PlayPl(202)])
        .object(&[
            InsnSpec::CmpEq(0, 1),
            InsnSpec::Goto(4),
            InsnSpec::CmpEq(0, 2),
            InsnSpec::Goto(5),
            InsnSpec::PlayPl(301),
            InsnSpec::PlayPl(302),
        ])
        .build();

    let mobj_file = parse(&mobj_data).expect("should parse");
    assert!(
        extract_dispatch_table(&mobj_file).is_none(),
        "no dispatch table for GotoMobj-style disc"
    );
}

#[test]
fn mobj_dispatch_table_resolves_buttons_composite() {
    // Composite dispatch: case = button_id + key.
    // button_id=6, key=5 → case 11; button_id=3, key=5 → case 8;
    // button_id=0, key=5 → case 5 (backwards compatible with raw key).
    let dispatch_mobj = build_dispatch_mobj(&[(5, 205), (8, 208), (11, 211)]);
    let mobj_data = MobjBuilder::new().object(&dispatch_mobj).build();

    let mobj_file = parse(&mobj_data).expect("should parse");
    let table = extract_dispatch_table(&mobj_file).expect("should extract table");

    let buttons = vec![
        // button_id=6, key=5 → composite 11 → playlist 211
        make_button(
            6,
            vec![NavigationCommand::SetGpr {
                register: 4075,
                value: 5,
            }],
        ),
        // button_id=3, key=5 → composite 8 → playlist 208
        make_button(
            3,
            vec![NavigationCommand::SetGpr {
                register: 4075,
                value: 5,
            }],
        ),
        // button_id=0, key=5 → composite 5 → playlist 205
        make_button(
            0,
            vec![NavigationCommand::SetGpr {
                register: 4075,
                value: 5,
            }],
        ),
    ];

    let resolved = resolve_buttons(
        &buttons
            .into_iter()
            .map(|b| (b, PlayerContext::default()))
            .collect::<Vec<_>>(),
        &mobj_file,
        &HashSet::new(),
        &[],
        Some(&table),
    );
    assert_eq!(resolved.len(), 3, "all three buttons resolved via table");
    assert_eq!(
        resolved[0].target.playlist, 211,
        "button_id=6, key=5 → case 11 → 211"
    );
    assert_eq!(
        resolved[1].target.playlist, 208,
        "button_id=3, key=5 → case 8 → 208"
    );
    assert_eq!(
        resolved[2].target.playlist, 205,
        "button_id=0, key=5 → case 5 → 205"
    );
}

#[test]
fn mobj_dispatch_table_composite_outside_range_not_resolved() {
    // Cases are 10–12. Button composite = button_id(1) + key(99) = 100,
    // which is outside the table range.
    let dispatch_mobj = build_dispatch_mobj(&[(10, 201), (11, 202), (12, 203)]);
    let mobj_data = MobjBuilder::new().object(&dispatch_mobj).build();

    let mobj_file = parse(&mobj_data).expect("should parse");
    let table = extract_dispatch_table(&mobj_file).expect("should extract table");

    // Composite 1 + 99 = 100, not in {10, 11, 12}
    let button = make_button(
        1,
        vec![NavigationCommand::SetGpr {
            register: 4075,
            value: 99,
        }],
    );

    let resolved = resolve_buttons(
        &[(button, PlayerContext::default())],
        &mobj_file,
        &HashSet::new(),
        &[],
        Some(&table),
    );
    assert!(resolved.is_empty(), "unmatched key not resolved via table");
}

#[test]
fn mobj_dispatch_table_coexists_with_goto_mobj() {
    // Mixed disc: MOBJ 0 is a simple GotoMobj target, MOBJ 1 is a
    // dispatch table. GotoMobj buttons use pattern 1, dispatch buttons
    // use the table. Composite = button_id(20) + key(2) = 22.
    let goto_target = vec![InsnSpec::PlayPl(500)];
    let dispatch_mobj = build_dispatch_mobj(&[(20, 301), (22, 302), (24, 303)]);

    let mobj_data = MobjBuilder::new()
        .object(&goto_target)
        .object(&dispatch_mobj)
        .build();

    let mobj_file = parse(&mobj_data).expect("should parse");
    let table = extract_dispatch_table(&mobj_file).expect("should extract table");

    // GotoMobj button
    let goto_button = make_button(
        10,
        vec![
            NavigationCommand::SetGpr {
                register: 0,
                value: 1,
            },
            NavigationCommand::GotoMobj { object_id: 0 },
        ],
    );

    // Dispatch table button: composite = 20 + 2 = 22 → case 22 → 302
    let dispatch_button = make_button(
        20,
        vec![NavigationCommand::SetGpr {
            register: 4075,
            value: 2,
        }],
    );

    let resolved = resolve_buttons(
        &[
            (goto_button, PlayerContext::default()),
            (dispatch_button, PlayerContext::default()),
        ],
        &mobj_file,
        &HashSet::new(),
        &[],
        Some(&table),
    );
    assert_eq!(resolved.len(), 2, "both buttons resolved");
    assert_eq!(resolved[0].button_id, 10, "GotoMobj button");
    assert_eq!(resolved[0].target.playlist, 500, "GotoMobj → 500");
    assert_eq!(resolved[1].button_id, 20, "dispatch table button");
    assert_eq!(resolved[1].target.playlist, 302, "composite 20+2=22 → 302");
}

#[test]
fn mobj_dispatch_table_button_id_zero_matches_raw_key() {
    // button_id=0 means composite = 0 + key = key, so the lookup is
    // backwards compatible with the raw-key case.
    let dispatch_mobj = build_dispatch_mobj(&[(0, 201), (5, 205), (10, 210)]);
    let mobj_data = MobjBuilder::new().object(&dispatch_mobj).build();

    let mobj_file = parse(&mobj_data).expect("should parse");
    let table = extract_dispatch_table(&mobj_file).expect("should extract table");

    let button = make_button(
        0,
        vec![NavigationCommand::SetGpr {
            register: 4075,
            value: 10,
        }],
    );

    let resolved = resolve_buttons(
        &[(button, PlayerContext::default())],
        &mobj_file,
        &HashSet::new(),
        &[],
        Some(&table),
    );
    assert_eq!(resolved.len(), 1, "button_id=0 resolved");
    assert_eq!(resolved[0].target.playlist, 210, "composite 0+10=10 → 210");
}

#[test]
fn exec_simple_set_button_page() {
    // Simulates a simple WB extras button:
    //   SetGpr(4075, 5)           -- dispatch key
    //   SetGpr(4076, 0xFFFF)      -- mask
    //   SET GPR[4077] = PSR[10]   -- button_id
    //   GPR[4077] &= GPR[4076]   -- mask to u16
    //   GPR[4077] += GPR[4075]   -- composite = button_id + key
    //   SET_BUTTON_PAGE(GPR[4077], GPR[0])
    let button = make_button(
        3,
        vec![
            NavigationCommand::SetGpr {
                register: 4075,
                value: 5,
            },
            NavigationCommand::SetGpr {
                register: 4076,
                value: 0xFFFF,
            },
            spec_to_other(&InsnSpec::SetGprReg(4077, PSR_FLAG | 0x0A)),
            spec_to_other(&InsnSpec::AndReg(4077, 4076)),
            spec_to_other(&InsnSpec::AddReg(4077, 4075)),
            spec_to_other(&InsnSpec::SetButtonPage(4077, 0)),
        ],
    );

    // Dispatch table: case 8 (3+5) → playlist 208
    let dispatch_mobj = build_dispatch_mobj(&[(6, 206), (7, 207), (8, 208), (9, 209)]);
    let mobj_data = MobjBuilder::new().object(&dispatch_mobj).build();
    let mobj_file = parse(&mobj_data).expect("should parse");
    let table = extract_dispatch_table(&mobj_file).expect("should extract table");

    let page = make_page(0, vec![button]);
    let clips = vec![NavClipInput {
        ig_pid: 0x1200,
        pages: vec![&page],
    }];

    let resolved = resolve_via_execution(
        &clips,
        &mobj_file,
        Some(&table),
        &HashSet::new(),
    );

    assert_eq!(resolved.len(), 1, "one button resolved");
    assert_eq!(resolved[0].button_id, 3, "button_id matches");
    assert_eq!(resolved[0].target.playlist, 208, "composite 3+5=8 → 208");
}

#[test]
fn exec_complex_button_branches_on_page_id() {
    // Simulates a complex WB button that computes different dispatch
    // keys based on PSR[11] (page_id):
    //   SetGpr(4075, 5)            -- default key
    //   CMP PSR[11] == 2
    //   GOTO skip1                 -- if page 2, jump ahead
    //   SetGpr(4075, 10)           -- key for page != 2
    //   skip1:
    //   SET GPR[4077] = PSR[10]
    //   GPR[4077] &= 0xFFFF (via GPR[4076])
    //   GPR[4077] += GPR[4075]
    //   SET_BUTTON_PAGE(GPR[4077], GPR[0])
    let commands = vec![
        NavigationCommand::SetGpr {
            register: 4075,
            value: 5,
        },
        spec_to_other(&InsnSpec::CmpEq(PSR_FLAG | 0x0B, 2)),
        spec_to_other(&InsnSpec::Goto(4)),
        NavigationCommand::SetGpr {
            register: 4075,
            value: 10,
        },
        // skip1 (pc=4):
        NavigationCommand::SetGpr {
            register: 4076,
            value: 0xFFFF,
        },
        spec_to_other(&InsnSpec::SetGprReg(4077, PSR_FLAG | 0x0A)),
        spec_to_other(&InsnSpec::AndReg(4077, 4076)),
        spec_to_other(&InsnSpec::AddReg(4077, 4075)),
        spec_to_other(&InsnSpec::SetButtonPage(4077, 0)),
    ];

    // Dispatch table
    let dispatch_mobj = build_dispatch_mobj(&[(12, 212), (15, 215), (17, 217)]);
    let mobj_data = MobjBuilder::new().object(&dispatch_mobj).build();
    let mobj_file = parse(&mobj_data).expect("should parse");
    let table = extract_dispatch_table(&mobj_file).expect("should extract table");

    // Button 7 on page 2: CMP is true → keeps key=5 → composite=12
    let btn_page2 = make_button(7, commands.clone());
    let page2 = make_page(2, vec![btn_page2]);
    let clips_page2 = vec![NavClipInput {
        ig_pid: 0x1200,
        pages: vec![&page2],
    }];

    let resolved_p2 = resolve_via_execution(
        &clips_page2,
        &mobj_file,
        Some(&table),
        &HashSet::new(),
    );
    assert_eq!(resolved_p2.len(), 1, "page 2 resolved");
    assert_eq!(
        resolved_p2[0].target.playlist, 212,
        "page 2: composite 7+5=12 → 212"
    );

    // Same button on page 3: CMP is false → key becomes 10 → composite=17
    let btn_page3 = make_button(7, commands);
    let page3 = make_page(3, vec![btn_page3]);
    let clips_page3 = vec![NavClipInput {
        ig_pid: 0x1200,
        pages: vec![&page3],
    }];

    let resolved_p3 = resolve_via_execution(
        &clips_page3,
        &mobj_file,
        Some(&table),
        &HashSet::new(),
    );
    assert_eq!(resolved_p3.len(), 1, "page 3 resolved");
    assert_eq!(
        resolved_p3[0].target.playlist, 217,
        "page 3: composite 7+10=17 → 217"
    );
}

#[test]
fn mobj_exec_goto_mobj_resolves_playlist() {
    // GotoMobj pattern: SetGpr(0, 42) + GotoMobj(1)
    // MOBJ[1] has: CMP GPR[0]==42, GOTO 3, Nop, PlayPl(301)
    let button = make_button(
        5,
        vec![
            NavigationCommand::SetGpr {
                register: 0,
                value: 42,
            },
            NavigationCommand::GotoMobj { object_id: 1 },
        ],
    );

    let mobj_data = MobjBuilder::new()
        .object(&[InsnSpec::Nop]) // MOBJ[0] — unused
        .object(&[
            InsnSpec::CmpEq(0, 42),
            InsnSpec::Goto(3),
            InsnSpec::Nop,
            InsnSpec::PlayPl(301),
        ])
        .build();
    let mobj_file = parse(&mobj_data).expect("should parse");

    let page = make_page(0, vec![button]);
    let clips = vec![NavClipInput {
        ig_pid: 0x1200,
        pages: vec![&page],
    }];

    let mut valid = HashSet::new();
    valid.insert(301);

    let resolved = resolve_via_execution(&clips, &mobj_file, None, &valid);
    assert_eq!(resolved.len(), 1, "GotoMobj resolved");
    assert_eq!(resolved[0].target.playlist, 301, "GotoMobj → MOBJ[1] → 301");
}

#[test]
fn mobj_exec_direct_play_pl_skipped() {
    // Buttons with direct PlayPl are skipped (they're already resolved
    // by the IG parser's typed variant).
    let button = make_button(
        1,
        vec![NavigationCommand::PlayPl {
            playlist: 200,
            branch_opt: 0,
            mark_or_pi: 0,
        }],
    );

    let mobj_data = MobjBuilder::new().object(&[InsnSpec::Nop]).build();
    let mobj_file = parse(&mobj_data).expect("should parse");

    let page = make_page(0, vec![button]);
    let clips = vec![NavClipInput {
        ig_pid: 0x1200,
        pages: vec![&page],
    }];

    let resolved =
        resolve_via_execution(&clips, &mobj_file, None, &HashSet::new());
    assert!(resolved.is_empty(), "direct PlayPl buttons are skipped");
}

#[test]
fn mobj_exec_step_limit_returns_none() {
    // Infinite loop: GOTO 0
    let button = make_button(1, vec![spec_to_other(&InsnSpec::Goto(0))]);

    let mobj_data = MobjBuilder::new().object(&[InsnSpec::Nop]).build();
    let mobj_file = parse(&mobj_data).expect("should parse");

    let page = make_page(0, vec![button]);
    let clips = vec![NavClipInput {
        ig_pid: 0x1200,
        pages: vec![&page],
    }];

    let resolved =
        resolve_via_execution(&clips, &mobj_file, None, &HashSet::new());
    assert!(resolved.is_empty(), "infinite loop produces no result");
}

#[test]
fn exec_multiple_pages_multiple_clips() {
    // Two clips, each with one page, each with one button.
    // Verifies that resolve_via_execution iterates all clips and pages.
    let dispatch_mobj = build_dispatch_mobj(&[(5, 205), (8, 208), (99, 299)]);
    let mobj_data = MobjBuilder::new().object(&dispatch_mobj).build();
    let mobj_file = parse(&mobj_data).expect("should parse");
    let table = extract_dispatch_table(&mobj_file).expect("should extract table");

    // Clip 0: button_id=3, key=5 → composite=8 → 208
    let btn0 = make_button(
        3,
        vec![
            NavigationCommand::SetGpr {
                register: 4075,
                value: 5,
            },
            NavigationCommand::SetGpr {
                register: 4076,
                value: 0xFFFF,
            },
            spec_to_other(&InsnSpec::SetGprReg(4077, PSR_FLAG | 0x0A)),
            spec_to_other(&InsnSpec::AndReg(4077, 4076)),
            spec_to_other(&InsnSpec::AddReg(4077, 4075)),
            spec_to_other(&InsnSpec::SetButtonPage(4077, 0)),
        ],
    );
    let page0 = make_page(0, vec![btn0]);

    // Clip 1: button_id=5, key=0 → composite=5 → 205
    let btn1 = make_button(
        5,
        vec![
            NavigationCommand::SetGpr {
                register: 4075,
                value: 0,
            },
            NavigationCommand::SetGpr {
                register: 4076,
                value: 0xFFFF,
            },
            spec_to_other(&InsnSpec::SetGprReg(4077, PSR_FLAG | 0x0A)),
            spec_to_other(&InsnSpec::AndReg(4077, 4076)),
            spec_to_other(&InsnSpec::AddReg(4077, 4075)),
            spec_to_other(&InsnSpec::SetButtonPage(4077, 0)),
        ],
    );
    let page1 = make_page(0, vec![btn1]);

    let clips = vec![
        NavClipInput {
            ig_pid: 0x1200,
            pages: vec![&page0],
        },
        NavClipInput {
            ig_pid: 0x1201,
            pages: vec![&page1],
        },
    ];

    let resolved = resolve_via_execution(
        &clips,
        &mobj_file,
        Some(&table),
        &HashSet::new(),
    );

    assert_eq!(resolved.len(), 2, "two buttons resolved across clips");
    let playlists: HashSet<u16> =
        resolved.iter().map(|r| r.target.playlist).collect();
    assert!(playlists.contains(&205), "clip 1 button resolved to 205");
    assert!(playlists.contains(&208), "clip 0 button resolved to 208");
}

#[test]
fn mobj_command_to_instruction_roundtrip() {
    // Verify that command_to_instruction produces correct Instruction
    // fields for each NavigationCommand variant.

    // PlayPl
    let play = command_to_instruction(&NavigationCommand::PlayPl {
        playlist: 42,
        branch_opt: 0,
        mark_or_pi: 0,
    });
    assert_eq!(play.group, GRP_BRANCH, "PlayPl group");
    assert_eq!(play.sub_group, BRANCH_PLAY, "PlayPl sub_group");
    assert!(play.imm_op1, "PlayPl imm_op1");
    assert_eq!(play.dst, 42, "PlayPl dst");

    // SetGpr
    let set = command_to_instruction(&NavigationCommand::SetGpr {
        register: 100,
        value: 999,
    });
    assert_eq!(set.group, GRP_SET, "SetGpr group");
    assert_eq!(set.sub_group, 0, "SetGpr sub_group");
    assert_eq!(set.set_opt, 0x01, "SetGpr MOVE");
    assert!(set.imm_op2, "SetGpr imm_op2");
    assert_eq!(set.dst, 100, "SetGpr dst");
    assert_eq!(set.src, 999, "SetGpr src");

    // GotoMobj
    let goto = command_to_instruction(&NavigationCommand::GotoMobj { object_id: 7 });
    assert_eq!(goto.group, GRP_BRANCH, "GotoMobj group");
    assert_eq!(goto.sub_group, BRANCH_JUMP, "GotoMobj sub_group");
    assert!(goto.imm_op1, "GotoMobj imm_op1");
    assert_eq!(goto.dst, 7, "GotoMobj dst");

    // Other (AND instruction)
    let (opcode, dst, src) = spec_to_raw(&InsnSpec::AndReg(4077, 4076));
    let other = command_to_instruction(&NavigationCommand::Other { opcode, dst, src });
    assert_eq!(other.group, GRP_SET, "Other AND group");
    assert_eq!(other.set_opt, 0x09, "Other AND set_opt");
    assert_eq!(other.dst, 4077, "Other AND dst");
    assert_eq!(other.src, 4076, "Other AND src");
}

#[test]
fn mobj_nav_graph_propagates_gpr_state() {
    // Page 0: navigation button sets GPR[100]=42, navigates to page 1.
    // Page 1: content button computes composite = GPR[100] + button_id.
    //
    // Without propagation (empty state): GPR[100]=0 → composite = 0+5 = 5 → 205
    // With propagation: GPR[100]=42 → composite = 42+5 = 47 → 247
    let nav_button = make_button(
        1,
        vec![
            NavigationCommand::SetGpr {
                register: 100,
                value: 42,
            },
            NavigationCommand::SetGpr {
                register: 50,
                value: 0,
            },
            NavigationCommand::SetGpr {
                register: 51,
                value: 1,
            },
            spec_to_other(&InsnSpec::SetButtonPage(50, 51)),
        ],
    );
    let page0 = make_page(0, vec![nav_button]);

    let content_button = make_button(
        5,
        vec![
            spec_to_other(&InsnSpec::SetGprReg(4077, 100)),
            spec_to_other(&InsnSpec::AddReg(4077, PSR_FLAG | 0x0A)),
            NavigationCommand::SetGpr {
                register: 200,
                value: 1,
            },
            spec_to_other(&InsnSpec::SetButtonPage(4077, 200)),
        ],
    );
    let page1 = make_page(1, vec![content_button]);

    let dispatch_mobj = build_dispatch_mobj(&[(5, 205), (42, 242), (47, 247)]);
    let mobj_data = MobjBuilder::new().object(&dispatch_mobj).build();
    let mobj_file = parse(&mobj_data).expect("should parse dispatch MOBJ");
    let table = extract_dispatch_table(&mobj_file).expect("should extract dispatch table");

    let clips = vec![NavClipInput {
        ig_pid: 0x1200,
        pages: vec![&page0, &page1],
    }];

    let resolved = resolve_via_execution(
        &clips,
        &mobj_file,
        Some(&table),
        &HashSet::new(),
    );

    let playlists: HashSet<u16> =
        resolved.iter().map(|r| r.target.playlist).collect();
    assert!(
        playlists.contains(&247),
        "propagated GPR[100]=42 → composite 47 → 247; got {resolved:?}"
    );
    assert!(
        playlists.contains(&205),
        "empty GPR state → composite 5 → 205; got {resolved:?}"
    );
}

#[test]
fn mobj_nav_graph_multiple_paths_to_same_page() {
    // Page 0: two navigation buttons, each setting GPR[100] to a
    // different value and navigating to page 1.
    // Page 1: content button reads GPR[100].
    //
    // Expected: both propagated states produce distinct resolutions.
    let nav_a = make_button(
        1,
        vec![
            NavigationCommand::SetGpr {
                register: 100,
                value: 10,
            },
            NavigationCommand::SetGpr {
                register: 50,
                value: 0,
            },
            NavigationCommand::SetGpr {
                register: 51,
                value: 1,
            },
            spec_to_other(&InsnSpec::SetButtonPage(50, 51)),
        ],
    );
    let nav_b = make_button(
        2,
        vec![
            NavigationCommand::SetGpr {
                register: 100,
                value: 20,
            },
            NavigationCommand::SetGpr {
                register: 50,
                value: 0,
            },
            NavigationCommand::SetGpr {
                register: 51,
                value: 1,
            },
            spec_to_other(&InsnSpec::SetButtonPage(50, 51)),
        ],
    );
    let page0 = make_page(0, vec![nav_a, nav_b]);

    let content = make_button(
        5,
        vec![
            spec_to_other(&InsnSpec::SetGprReg(4077, 100)),
            spec_to_other(&InsnSpec::AddReg(4077, PSR_FLAG | 0x0A)),
            NavigationCommand::SetGpr {
                register: 200,
                value: 1,
            },
            spec_to_other(&InsnSpec::SetButtonPage(4077, 200)),
        ],
    );
    let page1 = make_page(1, vec![content]);

    // Composites: 10+5=15, 20+5=25, 0+5=5 (empty state)
    let dispatch_mobj = build_dispatch_mobj(&[(5, 205), (15, 215), (25, 225)]);
    let mobj_data = MobjBuilder::new().object(&dispatch_mobj).build();
    let mobj_file = parse(&mobj_data).expect("should parse");
    let table = extract_dispatch_table(&mobj_file).expect("should extract table");

    let clips = vec![NavClipInput {
        ig_pid: 0x1200,
        pages: vec![&page0, &page1],
    }];

    let resolved = resolve_via_execution(
        &clips,
        &mobj_file,
        Some(&table),
        &HashSet::new(),
    );

    let playlists: HashSet<u16> =
        resolved.iter().map(|r| r.target.playlist).collect();
    assert!(
        playlists.contains(&215),
        "path A: GPR[100]=10 → composite 15 → 215; got {resolved:?}"
    );
    assert!(
        playlists.contains(&225),
        "path B: GPR[100]=20 → composite 25 → 225; got {resolved:?}"
    );
    assert!(
        playlists.contains(&205),
        "empty state: composite 5 → 205; got {resolved:?}"
    );
}

#[test]
fn mobj_nav_graph_handles_cycle() {
    // Page 0 navigates to page 1, page 1 navigates back to page 0.
    // BFS must terminate without hanging.
    let nav0 = make_button(
        1,
        vec![
            NavigationCommand::SetGpr {
                register: 50,
                value: 0,
            },
            NavigationCommand::SetGpr {
                register: 51,
                value: 1,
            },
            spec_to_other(&InsnSpec::SetButtonPage(50, 51)),
        ],
    );
    let page0 = make_page(0, vec![nav0]);

    let nav1 = make_button(
        2,
        vec![
            NavigationCommand::SetGpr {
                register: 50,
                value: 0,
            },
            NavigationCommand::SetGpr {
                register: 51,
                value: 0,
            },
            spec_to_other(&InsnSpec::SetButtonPage(50, 51)),
        ],
    );
    let page1 = make_page(1, vec![nav1]);

    let mobj_data = MobjBuilder::new().object(&[InsnSpec::Nop]).build();
    let mobj_file = parse(&mobj_data).expect("should parse");

    let clips = vec![NavClipInput {
        ig_pid: 0x1200,
        pages: vec![&page0, &page1],
    }];

    // Should terminate — visited set prevents re-processing same state
    let resolved =
        resolve_via_execution(&clips, &mobj_file, None, &HashSet::new());
    assert!(
        resolved.is_empty(),
        "cycle with no dispatch table produces no resolutions"
    );
}

#[test]
fn mobj_nav_graph_same_page_terminates() {
    // Single page where the button's SET_BUTTON_PAGE targets the
    // current page (same-page edge). Should resolve via dispatch
    // table and terminate without infinite looping.
    let button = make_button(
        3,
        vec![
            NavigationCommand::SetGpr {
                register: 4075,
                value: 5,
            },
            NavigationCommand::SetGpr {
                register: 4076,
                value: 0xFFFF,
            },
            spec_to_other(&InsnSpec::SetGprReg(4077, PSR_FLAG | 0x0A)),
            spec_to_other(&InsnSpec::AndReg(4077, 4076)),
            spec_to_other(&InsnSpec::AddReg(4077, 4075)),
            // page register GPR[60] = 0 = current page → same-page edge
            spec_to_other(&InsnSpec::SetButtonPage(4077, 60)),
        ],
    );
    let page = make_page(0, vec![button]);

    let dispatch_mobj = build_dispatch_mobj(&[(7, 207), (8, 208), (9, 209)]);
    let mobj_data = MobjBuilder::new().object(&dispatch_mobj).build();
    let mobj_file = parse(&mobj_data).expect("should parse");
    let table = extract_dispatch_table(&mobj_file).expect("should extract table");

    let clips = vec![NavClipInput {
        ig_pid: 0x1200,
        pages: vec![&page],
    }];

    let resolved = resolve_via_execution(
        &clips,
        &mobj_file,
        Some(&table),
        &HashSet::new(),
    );

    assert_eq!(resolved.len(), 1, "one button resolved");
    assert_eq!(resolved[0].target.playlist, 208, "composite 3+5=8 → 208");
}

#[test]
fn mobj_exec_nop_anchor_resolves_via_button_id() {
    // NOP anchor buttons resolve by matching their button_id
    // directly against the dispatch table. This models the WB
    // SET_BUTTON_PAGE pattern where anchor button_ids on extras
    // pages are the dispatch cases (PSR[10] = button_id).
    //
    // Tests both true empty commands and single-NOP commands
    // (WB authoring emits a single all-zero 12-byte NOP).
    let anchor_12 = make_button(12, vec![]);
    let anchor_15 = make_button(15, vec![spec_to_other(&InsnSpec::Nop)]);
    let anchor_20 = make_button(20, vec![]);

    let dispatch_mobj =
        build_dispatch_mobj(&[(5, 205), (12, 212), (15, 215), (20, 220), (32, 232)]);
    let mobj_data = MobjBuilder::new().object(&dispatch_mobj).build();
    let mobj_file = parse(&mobj_data).expect("should parse");
    let table = extract_dispatch_table(&mobj_file).expect("should extract table");

    let page = make_page(2, vec![anchor_12, anchor_15, anchor_20]);
    let clips = vec![NavClipInput {
        ig_pid: 0x1200,
        pages: vec![&page],
    }];

    let resolved = resolve_via_execution(
        &clips,
        &mobj_file,
        Some(&table),
        &HashSet::new(),
    );

    assert_eq!(resolved.len(), 3, "three anchors resolved");
    let playlists: HashSet<u16> =
        resolved.iter().map(|r| r.target.playlist).collect();
    assert!(playlists.contains(&212), "anchor 12 → 212");
    assert!(playlists.contains(&215), "anchor 15 → 215");
    assert!(playlists.contains(&220), "anchor 20 → 220");
}

#[test]
fn mobj_exec_nop_anchor_skipped_without_dispatch_table() {
    // Without a dispatch table, NOP anchors cannot resolve.
    let anchor = make_button(12, vec![]);

    let mobj_data = MobjBuilder::new().object(&[InsnSpec::Nop]).build();
    let mobj_file = parse(&mobj_data).expect("should parse");

    let page = make_page(0, vec![anchor]);
    let clips = vec![NavClipInput {
        ig_pid: 0x1200,
        pages: vec![&page],
    }];

    let resolved =
        resolve_via_execution(&clips, &mobj_file, None, &HashSet::new());
    assert!(
        resolved.is_empty(),
        "no dispatch table → no anchor resolution"
    );
}

#[test]
fn mobj_exec_nop_anchor_unmatched_id_skipped() {
    // NOP anchor whose button_id doesn't match any dispatch case.
    let anchor = make_button(99, vec![]);

    let dispatch_mobj = build_dispatch_mobj(&[(5, 205), (10, 210), (15, 215)]);
    let mobj_data = MobjBuilder::new().object(&dispatch_mobj).build();
    let mobj_file = parse(&mobj_data).expect("should parse");
    let table = extract_dispatch_table(&mobj_file).expect("should extract table");

    let page = make_page(0, vec![anchor]);
    let clips = vec![NavClipInput {
        ig_pid: 0x1200,
        pages: vec![&page],
    }];

    let resolved = resolve_via_execution(
        &clips,
        &mobj_file,
        Some(&table),
        &HashSet::new(),
    );
    assert!(
        resolved.is_empty(),
        "button_id 99 not in dispatch table → no resolution"
    );
}

#[test]
fn exec_nop_anchors_coexist_with_command_buttons() {
    // Mix of NOP anchors and command buttons on the same page.
    // Both should resolve independently.
    let command_button = make_button(
        3,
        vec![
            NavigationCommand::SetGpr {
                register: 4075,
                value: 5,
            },
            NavigationCommand::SetGpr {
                register: 4076,
                value: 0xFFFF,
            },
            spec_to_other(&InsnSpec::SetGprReg(4077, PSR_FLAG | 0x0A)),
            spec_to_other(&InsnSpec::AndReg(4077, 4076)),
            spec_to_other(&InsnSpec::AddReg(4077, 4075)),
            spec_to_other(&InsnSpec::SetButtonPage(4077, 0)),
        ],
    );
    let anchor = make_button(15, vec![]);

    let dispatch_mobj = build_dispatch_mobj(&[(8, 208), (15, 215), (20, 220)]);
    let mobj_data = MobjBuilder::new().object(&dispatch_mobj).build();
    let mobj_file = parse(&mobj_data).expect("should parse");
    let table = extract_dispatch_table(&mobj_file).expect("should extract table");

    let page = make_page(0, vec![command_button, anchor]);
    let clips = vec![NavClipInput {
        ig_pid: 0x1200,
        pages: vec![&page],
    }];

    let resolved = resolve_via_execution(
        &clips,
        &mobj_file,
        Some(&table),
        &HashSet::new(),
    );

    assert_eq!(resolved.len(), 2, "command button + anchor both resolved");
    let playlists: HashSet<u16> =
        resolved.iter().map(|r| r.target.playlist).collect();
    assert!(playlists.contains(&208), "command button 3+5=8 → 208");
    assert!(playlists.contains(&215), "anchor 15 → 215");
}

#[test]
fn mobj_exec_nop_anchor_deduplicates() {
    // Same anchor on multiple pages should only produce one resolution.
    let anchor_p0 = make_button(12, vec![]);
    let anchor_p1 = make_button(12, vec![]);

    let dispatch_mobj = build_dispatch_mobj(&[(12, 212), (15, 215), (20, 220)]);
    let mobj_data = MobjBuilder::new().object(&dispatch_mobj).build();
    let mobj_file = parse(&mobj_data).expect("should parse");
    let table = extract_dispatch_table(&mobj_file).expect("should extract table");

    let page0 = make_page(0, vec![anchor_p0]);
    let page1 = make_page(1, vec![anchor_p1]);
    let clips = vec![NavClipInput {
        ig_pid: 0x1200,
        pages: vec![&page0, &page1],
    }];

    let resolved = resolve_via_execution(
        &clips,
        &mobj_file,
        Some(&table),
        &HashSet::new(),
    );

    let matching = resolved
        .iter()
        .filter(|r| r.button_id == 12 && r.target.playlist == 212)
        .count();
    assert_eq!(
        matching, 1,
        "same anchor on two pages → deduplicated to one"
    );
}
