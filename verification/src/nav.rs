//! Menu pages, buttons and navigation commands as the HDMV machine sees them.
use vstd::prelude::*;

verus! {

/// A menu page: the buttons that can be on screen together.
#[derive(Debug, Clone)]
pub struct Page {
    /// Page identifier, unique within a clip's menu.
    pub page_id: u8,
    /// Buttons in stream order.
    pub buttons: Vec<Button>,
}

/// A menu button with its position, cursor neighbours and program.
#[derive(Debug, Clone)]
pub struct Button {
    /// Button identifier.
    pub button_id: u16,
    /// Horizontal position on the page.
    pub x: u16,
    /// Vertical position on the page.
    pub y: u16,
    /// Button reached by moving the cursor up.
    pub upper_button_id: u16,
    /// Button reached by moving the cursor down.
    pub lower_button_id: u16,
    /// Button reached by moving the cursor left.
    pub left_button_id: u16,
    /// Button reached by moving the cursor right.
    pub right_button_id: u16,
    /// Object shown while the button is not selected.
    pub normal_object_id: u16,
    /// Object shown while the button is selected.
    pub selected_object_id: u16,
    /// Program run when the button is activated.
    pub commands: Vec<NavigationCommand>,
    /// Button overlap group that holds the button.
    pub bog_id: u8,
}

/// One command of a button's program.
#[derive(Debug, Clone, Copy, PartialEq, Eq, Structural)]
pub enum NavigationCommand {
    /// Play a playlist given as an immediate value.
    PlayPl {
        /// Playlist number.
        playlist: u16,
        /// 0 = from the start, 1 = at a mark, 2 = at a play item.
        branch_opt: u8,
        /// Mark or play item index, used when `branch_opt > 0`.
        mark_or_pi: u32,
    },
    /// Set a general purpose register to an immediate value.
    SetGpr {
        /// Register number.
        register: u32,
        /// Value assigned.
        value: u32,
    },
    /// Jump to a movie object.
    GotoMobj {
        /// Index of the movie object.
        object_id: u32,
    },
    /// Any other instruction, kept as its three raw words.
    Other {
        /// Instruction word.
        opcode: u32,
        /// Destination operand.
        dst: u32,
        /// Source operand.
        src: u32,
    },
}

} // verus!
