//! Movie objects: the HDMV programs of a disc and what they play.
pub mod anchors;
pub mod dispatch;
pub mod every_page;
pub mod laws;
pub mod parse;
pub mod press;
pub mod resolve;
pub mod trace;
pub mod vm;

pub use anchors::{find_visible_button_for_nop, is_nop_anchor};
pub use dispatch::{extract_dispatch_table, find_dispatch_entries, find_handler_pc};
pub use parse::{command_to_instruction, format_instruction, parse};
pub use resolve::resolve_via_execution;
pub use trace::resolve_buttons;
pub use vm::{execute_button_commands, run_mobj_vm, seed_gpr_state, ButtonEffect};

use vstd::prelude::*;
use vstd::string::*;

use crate::cursor::{eof_text, CursorError};
use crate::nav::Page;
use crate::text::{bytes_text, debug_bytes, decimal, to_decimal};

verus! {

/// Why a `MovieObject.bdmv` file cannot be parsed.
#[derive(Debug, Clone, Copy, PartialEq, Eq)]
pub enum MobjError {
    /// The file is smaller than its header.
    TooSmall {
        /// Size of the file.
        size: usize,
    },
    /// The file does not start with `MOBJ`.
    InvalidMagic {
        /// The first four bytes.
        found: [u8; 4],
    },
    /// The file ends too early.
    UnexpectedEof {
        /// Position of the read.
        offset: usize,
        /// Number of bytes asked for.
        needed: usize,
        /// Number of bytes that there were.
        available: usize,
    },
}

impl vstd::std_specs::convert::FromSpecImpl<CursorError> for MobjError {
    open spec fn obeys_from_spec() -> bool {
        true
    }

    open spec fn from_spec(e: CursorError) -> MobjError {
        MobjError::eof(e)
    }
}

impl From<CursorError> for MobjError {
    fn from(e: CursorError) -> (r: MobjError) {
        MobjError::UnexpectedEof { offset: e.offset, needed: e.needed, available: e.available }
    }
}

impl MobjError {
    /// The error for a read past the end of the data.
    pub open spec fn eof(e: CursorError) -> MobjError {
        MobjError::UnexpectedEof { offset: e.offset, needed: e.needed, available: e.available }
    }

    /// The message of the error.
    pub open spec fn text(self) -> Seq<char> {
        match self {
            MobjError::TooSmall { size } => "file too small ("@ + decimal(size as nat)
                + " bytes, need at least 50)"@,
            MobjError::InvalidMagic { found } => "invalid magic: expected \"MOBJ\", got "@
                + bytes_text(found@),
            MobjError::UnexpectedEof { offset, needed, available } => eof_text(
                CursorError { offset, needed, available },
            ),
        }
    }

    /// Describes the error.
    pub fn message(&self) -> (text: String)
        ensures
            text@ == self.text(),
    {
        match *self {
            MobjError::TooSmall { size } => {
                let mut text: String = String::from_str("file too small (");
                text.append(to_decimal(size as u64).as_str());
                text.append(" bytes, need at least 50)");
                text
            },
            MobjError::InvalidMagic { found } => {
                let mut text: String = String::from_str("invalid magic: expected \"MOBJ\", got ");
                text.append(debug_bytes(&found).as_str());
                text
            },
            MobjError::UnexpectedEof { offset, needed, available } => CursorError {
                offset,
                needed,
                available,
            }.message(),
        }
    }
}

/// A parsed `MovieObject.bdmv` file.
#[derive(Debug)]
pub struct MovieObjectFile {
    /// Movie objects in file order.
    pub objects: Vec<MovieObject>,
}

/// One movie object: a navigation program.
#[derive(Debug)]
pub struct MovieObject {
    /// Instructions in execution order.
    pub instructions: Vec<Instruction>,
}

/// A decoded HDMV instruction (12 bytes on disc).
#[derive(Debug, Clone, Copy, PartialEq, Eq, Structural)]
pub struct Instruction {
    /// Operand count.
    pub op_cnt: u8,
    /// Instruction group: 0 = branch, 1 = compare, 2 = set.
    pub group: u8,
    /// Sub-group within the group.
    pub sub_group: u8,
    /// The destination operand is an immediate value.
    pub imm_op1: bool,
    /// The source operand is an immediate value.
    pub imm_op2: bool,
    /// Branch option.
    pub branch_opt: u8,
    /// Comparison of a compare instruction.
    pub cmp_opt: u8,
    /// Operation of a set instruction.
    pub set_opt: u8,
    /// Raw destination operand.
    pub dst: u32,
    /// Raw source operand.
    pub src: u32,
}

/// What a program plays: a playlist, and where in it playback starts.
#[derive(Debug, Clone, Copy, PartialEq, Eq, Hash, Structural)]
pub struct PlayTarget {
    /// Playlist number.
    pub playlist: u16,
    /// 0 = from the start, 1 = at a mark, 2 = at a play item.
    pub branch_opt: u8,
    /// Mark or play item index, used when `branch_opt > 0`.
    pub mark_or_pi: u32,
}

/// A button and the playlist that it leads to.
#[derive(Debug, Clone, Copy, PartialEq, Eq, Structural)]
pub struct ResolvedButton {
    /// Button identifier.
    pub button_id: u16,
    /// What the button plays.
    pub target: PlayTarget,
}

/// One button press on the way from a root menu to a playlist.
#[derive(Debug, Clone, Copy, PartialEq, Eq, Structural)]
pub struct BreadcrumbStep {
    /// Index of the menu clip.
    pub clip_index: usize,
    /// Page on which the button lies.
    pub page_id: u8,
    /// Button that is pressed.
    pub button_id: u16,
}

/// A playlist and the button presses that reach it.
#[derive(Debug, Clone, PartialEq, Eq)]
pub struct ResolvedPlaylist {
    /// Button presses in order.
    pub breadcrumb: Vec<BreadcrumbStep>,
    /// The button lies on a page that no root menu leads to.
    pub orphan: bool,
    /// What is played.
    pub target: PlayTarget,
}

/// A place in a movie object where execution resumes after its menu played.
#[derive(Debug, Clone, Copy, PartialEq, Eq, Structural)]
pub struct DispatchEntry {
    /// Index of the movie object.
    pub mobj_index: usize,
    /// Index of the instruction after the menu's play instruction.
    pub dispatch_pc: usize,
}

/// The switch table of a central dispatch object.
#[derive(Debug)]
pub struct DispatchTable {
    /// Index of the movie object that holds the table.
    pub mobj_index: usize,
    /// Register that the switch reads.
    pub dispatch_register: u32,
    /// Case values with the playlist that each leads to.
    pub cases: Vec<(u32, u16)>,
}

/// Player state known when a button is activated.
#[derive(Debug, Clone, Copy, PartialEq, Eq, Structural)]
pub struct PlayerContext {
    /// Interactive graphics stream number (status register 0).
    pub ig_stream: u16,
    /// Selected button (status register 10).
    pub selected_button_id: u16,
    /// Current page (status register 11).
    pub page_id: u8,
}

impl Default for PlayerContext {
    fn default() -> (ctx: Self)
        ensures
            ctx == (PlayerContext { ig_stream: 0, selected_button_id: 0, page_id: 0 }),
    {
        PlayerContext { ig_stream: 0, selected_button_id: 0, page_id: 0 }
    }
}

/// The menu pages of one clip.
pub struct NavClipInput<'a> {
    /// PID of the clip's interactive graphics stream.
    pub ig_pid: u16,
    /// Pages of all display sets of the clip.
    pub pages: Vec<&'a Page>,
}

/// Branch group: goto, jump to an object, play a playlist.
pub const GRP_BRANCH: u8 = 0;

/// Compare group: skip the next instruction when the comparison fails.
pub const GRP_CMP: u8 = 1;

/// Set group: register operations.
pub const GRP_SET: u8 = 2;

/// Goto, no-operation and break.
pub const BRANCH_GOTO: u8 = 0;

/// Jump to a movie object.
pub const BRANCH_JUMP: u8 = 1;

/// Play a playlist.
pub const BRANCH_PLAY: u8 = 2;

/// Set operation of sub-group 1 that selects a button and a page.
pub const SET_BUTTON_PAGE_OPT: u8 = 3;

/// Most instructions that one run executes.
pub const VM_STEP_LIMIT: u32 = 10_000;

/// Register numbers with this bit name player status registers.
pub const PSR_FLAG: u32 = 0x8000_0000;

} // verus!
