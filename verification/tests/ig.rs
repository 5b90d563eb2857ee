//! Interactive graphics streams.
use reliquary_bdmv::ig::{
    parse, NavigationCommand, SEG_COMPOSITION, SEG_END_OF_DISPLAY, SEG_OBJECT, SEG_PALETTE,
    SEQ_FIRST, SEQ_FIRST_AND_LAST, SEQ_LAST,
};

/// Builds a valid IG segment byte stream for testing.
pub(crate) struct IgBuilder {
    segments: Vec<Vec<u8>>,
}

impl IgBuilder {
    pub(crate) fn new() -> Self {
        Self {
            segments: Vec::new(),
        }
    }

    /// Adds a Palette Definition Segment.
    pub(crate) fn palette(mut self, palette_id: u8, entries: &[(u8, u8, u8, u8, u8)]) -> Self {
        let mut body = Vec::new();
        body.push(palette_id);
        body.push(0); // version
        for &(index, y, cr, cb, alpha) in entries {
            body.push(index);
            body.push(y);
            body.push(cr);
            body.push(cb);
            body.push(alpha);
        }
        self.segments.push(build_segment(SEG_PALETTE, &body));
        self
    }

    /// Adds a single-segment Object Definition.
    pub(crate) fn object(
        mut self,
        object_id: u16,
        width: u16,
        height: u16,
        rle_data: &[u8],
    ) -> Self {
        let mut body = Vec::new();
        body.extend_from_slice(&object_id.to_be_bytes());
        body.push(0); // version
        body.push(SEQ_FIRST_AND_LAST); // sequence_flag
        // object_data_length (3 bytes): width(2) + height(2) + rle
        let data_len = 4 + rle_data.len();
        body.push((data_len >> 16) as u8);
        body.push((data_len >> 8) as u8);
        body.push(data_len as u8);
        body.extend_from_slice(&width.to_be_bytes());
        body.extend_from_slice(&height.to_be_bytes());
        body.extend_from_slice(rle_data);
        self.segments.push(build_segment(SEG_OBJECT, &body));
        self
    }

    /// Adds the first segment of a multi-segment object.
    pub(crate) fn object_first(
        mut self,
        object_id: u16,
        width: u16,
        height: u16,
        total_rle_len: usize,
        rle_data: &[u8],
    ) -> Self {
        let mut body = Vec::new();
        body.extend_from_slice(&object_id.to_be_bytes());
        body.push(0); // version
        body.push(SEQ_FIRST);
        let data_len = 4 + total_rle_len;
        body.push((data_len >> 16) as u8);
        body.push((data_len >> 8) as u8);
        body.push(data_len as u8);
        body.extend_from_slice(&width.to_be_bytes());
        body.extend_from_slice(&height.to_be_bytes());
        body.extend_from_slice(rle_data);
        self.segments.push(build_segment(SEG_OBJECT, &body));
        self
    }

    /// Adds a middle segment of a multi-segment object.
    pub(crate) fn object_middle(mut self, object_id: u16, rle_data: &[u8]) -> Self {
        let mut body = Vec::new();
        body.extend_from_slice(&object_id.to_be_bytes());
        body.push(0); // version
        body.push(0x00); // middle
        body.extend_from_slice(rle_data);
        self.segments.push(build_segment(SEG_OBJECT, &body));
        self
    }

    /// Adds the last segment of a multi-segment object.
    pub(crate) fn object_last(mut self, object_id: u16, rle_data: &[u8]) -> Self {
        let mut body = Vec::new();
        body.extend_from_slice(&object_id.to_be_bytes());
        body.push(0); // version
        body.push(SEQ_LAST);
        body.extend_from_slice(rle_data);
        self.segments.push(build_segment(SEG_OBJECT, &body));
        self
    }

    /// Adds an Interactive Composition Segment with the given buttons.
    pub(crate) fn composition(mut self, width: u16, height: u16, pages: &[PageSpec]) -> Self {
        let mut body = Vec::new();
        body.extend_from_slice(&width.to_be_bytes());
        body.extend_from_slice(&height.to_be_bytes());
        body.push(0); // frame_rate_id + reserved
        body.extend_from_slice(&0u16.to_be_bytes()); // composition_number
        body.push(0); // composition_state + reserved
        body.push(0xC0); // sequence_descriptor: first + last
        body.extend_from_slice(&[0u8; 3]); // data_length
        body.push(0); // stream_model=0, ui_model=0
        body.push(0); // uo_mask_flag=0 + reserved
        body.extend_from_slice(&[0u8; 10]); // timeout PTSes (5+5)
        body.extend_from_slice(&[0u8; 3]); // user_timeout_duration

        body.push(pages.len() as u8);
        for page in pages {
            build_page(&mut body, page);
        }

        self.segments.push(build_segment(SEG_COMPOSITION, &body));
        self
    }

    /// Adds an End of Display marker.
    pub(crate) fn end_of_display(mut self) -> Self {
        self.segments.push(build_segment(SEG_END_OF_DISPLAY, &[]));
        self
    }

    /// Builds the complete byte stream.
    pub(crate) fn build(self) -> Vec<u8> {
        let mut data = Vec::new();
        for seg in self.segments {
            data.extend_from_slice(&seg);
        }
        data
    }
}

/// Specification for a page in the test builder.
pub(crate) struct PageSpec {
    /// Page ID.
    pub page_id: u8,
    /// Buttons on this page, grouped into BOGs (one button per BOG).
    pub buttons: Vec<ButtonSpec>,
}

/// Specification for a button in the test builder.
pub(crate) struct ButtonSpec {
    /// Button ID.
    pub button_id: u16,
    /// Horizontal position.
    pub x: u16,
    /// Vertical position.
    pub y: u16,
    /// Normal state object ID.
    pub normal_object_id: u16,
    /// Selected state object ID.
    pub selected_object_id: u16,
    /// Commands to attach.
    pub commands: Vec<CommandSpec>,
}

/// Specification for a navigation command in the test builder.
pub(crate) enum CommandSpec {
    /// `PlayPL` command with a playlist number.
    PlayPl(u16),
    /// Some other command with an arbitrary opcode.
    Other(u32),
}

fn build_segment(seg_type: u8, body: &[u8]) -> Vec<u8> {
    let mut seg = Vec::new();
    seg.push(seg_type);
    seg.extend_from_slice(&(body.len() as u16).to_be_bytes());
    seg.extend_from_slice(body);
    seg
}

fn build_page(buf: &mut Vec<u8>, page: &PageSpec) {
    buf.push(page.page_id);
    buf.push(0); // page_version
    // UO_mask_table (8 bytes)
    buf.extend_from_slice(&[0u8; 8]);
    // in_effect_sequence: num_windows=0, num_effects=0
    buf.push(0);
    buf.push(0);
    // out_effect_sequence: num_windows=0, num_effects=0
    buf.push(0);
    buf.push(0);
    // animation_frame_rate_code
    buf.push(0);
    // default_selected_button_id + default_activated_button_id
    buf.extend_from_slice(&[0u8; 4]);
    // palette_id
    buf.push(0);
    // num_bogs — one BOG per button for simplicity
    buf.push(page.buttons.len() as u8);
    for button in &page.buttons {
        build_bog(buf, button);
    }
}

fn build_bog(buf: &mut Vec<u8>, button: &ButtonSpec) {
    // default_valid_button_id
    buf.extend_from_slice(&button.button_id.to_be_bytes());
    // num_buttons = 1 (one button per BOG)
    buf.push(1);
    build_button(buf, button);
}

fn build_button(buf: &mut Vec<u8>, button: &ButtonSpec) {
    buf.extend_from_slice(&button.button_id.to_be_bytes());
    buf.extend_from_slice(&0u16.to_be_bytes()); // numeric_value
    buf.push(0); // auto_action
    buf.extend_from_slice(&button.x.to_be_bytes());
    buf.extend_from_slice(&button.y.to_be_bytes());
    // neighbor navigation: up, down, left, right
    buf.extend_from_slice(&[0u8; 8]);
    // Normal state
    buf.extend_from_slice(&button.normal_object_id.to_be_bytes()); // start
    buf.extend_from_slice(&button.normal_object_id.to_be_bytes()); // end
    buf.push(0); // repeat_flag + reserved
    // selected_sound_id_ref
    buf.push(0xFF);
    // Selected state
    buf.extend_from_slice(&button.selected_object_id.to_be_bytes()); // start
    buf.extend_from_slice(&button.selected_object_id.to_be_bytes()); // end
    buf.push(0); // repeat_flag + reserved
    // activated_sound_id_ref
    buf.push(0xFF);
    // Activated state
    buf.extend_from_slice(&button.selected_object_id.to_be_bytes()); // start
    buf.extend_from_slice(&button.selected_object_id.to_be_bytes()); // end
    // Commands
    buf.extend_from_slice(&(button.commands.len() as u16).to_be_bytes());
    for cmd in &button.commands {
        build_command(buf, cmd);
    }
}

fn build_command(buf: &mut Vec<u8>, cmd: &CommandSpec) {
    match cmd {
        CommandSpec::PlayPl(playlist) => {
            // group=0x2, sub_group=0x1 → insn = 0x2100_0000
            // plus operand count bits: we need imm operand mode
            // From hdmv_insn.h: PlayPL uses branch group (0x2), sub=0x1
            // op_cnt=1 (one source operand)
            // bit layout: group(4) sub(4) op_cnt(3) ...
            // Full instruction: 0x2110_0000 (group=2, sub=1, op_cnt=1, imm=1)
            let insn: u32 = 0x2110_0000;
            buf.extend_from_slice(&insn.to_be_bytes());
            buf.extend_from_slice(&0u32.to_be_bytes()); // dst
            buf.extend_from_slice(&u32::from(*playlist).to_be_bytes()); // src
        }
        CommandSpec::Other(opcode) => {
            buf.extend_from_slice(&opcode.to_be_bytes());
            buf.extend_from_slice(&0u32.to_be_bytes()); // dst
            buf.extend_from_slice(&0u32.to_be_bytes()); // src
        }
    }
}

#[test]
fn single_display_set() {
    let rle = vec![0xAA, 0xBB];
    let data = IgBuilder::new()
        .palette(0, &[(0, 255, 128, 128, 255)])
        .object(0, 100, 30, &rle)
        .composition(
            1920,
            1080,
            &[PageSpec {
                page_id: 0,
                buttons: vec![ButtonSpec {
                    button_id: 0,
                    x: 100,
                    y: 200,
                    normal_object_id: 0,
                    selected_object_id: 0,
                    commands: vec![CommandSpec::PlayPl(203)],
                }],
            }],
        )
        .end_of_display()
        .build();

    let stream = parse(&data).expect("should parse single display set");
    assert_eq!(stream.display_sets.len(), 1, "one display set");
    let ds = &stream.display_sets[0];
    assert_eq!(ds.palettes.len(), 1, "one palette");
    assert_eq!(ds.objects.len(), 1, "one object");
    assert_eq!(ds.compositions.len(), 1, "one composition");
}

#[test]
fn multiple_display_sets() {
    let rle = vec![0xAA];
    let data = IgBuilder::new()
        .palette(0, &[(0, 255, 128, 128, 255)])
        .object(0, 50, 20, &rle)
        .composition(1920, 1080, &[])
        .end_of_display()
        .palette(1, &[(0, 0, 0, 0, 255)])
        .object(1, 60, 25, &rle)
        .composition(1920, 1080, &[])
        .end_of_display()
        .build();

    let stream = parse(&data).expect("should parse multiple display sets");
    assert_eq!(stream.display_sets.len(), 2, "two display sets");
    assert_eq!(
        stream.display_sets[0].palettes[0].palette_id, 0,
        "first display set palette id"
    );
    assert_eq!(
        stream.display_sets[1].palettes[0].palette_id, 1,
        "second display set palette id"
    );
}

#[test]
fn unknown_segment_type_skipped() {
    // Build a stream with an unknown segment type (0x99) between valid segments
    let rle = vec![0xAA];
    let mut data = IgBuilder::new()
        .palette(0, &[(0, 255, 128, 128, 255)])
        .build();
    // Insert unknown segment (u8 type + u16 length)
    let unknown_body = vec![0x01, 0x02, 0x03];
    data.push(0x99); // unknown type
    data.extend_from_slice(&(unknown_body.len() as u16).to_be_bytes());
    data.extend_from_slice(&unknown_body);
    // Add object + end
    let rest = IgBuilder::new()
        .object(0, 50, 20, &rle)
        .end_of_display()
        .build();
    data.extend_from_slice(&rest);

    let stream = parse(&data).expect("should skip unknown segment type");
    assert_eq!(stream.display_sets.len(), 1, "one display set");
    assert_eq!(
        stream.display_sets[0].objects.len(),
        1,
        "object parsed after unknown segment"
    );
}

#[test]
fn buttons_with_play_pl_commands() {
    let data = IgBuilder::new()
        .composition(
            1920,
            1080,
            &[PageSpec {
                page_id: 0,
                buttons: vec![
                    ButtonSpec {
                        button_id: 0,
                        x: 100,
                        y: 200,
                        normal_object_id: 0,
                        selected_object_id: 1,
                        commands: vec![CommandSpec::PlayPl(203)],
                    },
                    ButtonSpec {
                        button_id: 1,
                        x: 100,
                        y: 260,
                        normal_object_id: 2,
                        selected_object_id: 3,
                        commands: vec![CommandSpec::PlayPl(204)],
                    },
                ],
            }],
        )
        .end_of_display()
        .build();

    let stream = parse(&data).expect("should parse buttons with PlayPL");
    let comp = &stream.display_sets[0].compositions[0];
    assert_eq!(comp.width, 1920, "composition width");
    assert_eq!(comp.height, 1080, "composition height");
    assert_eq!(comp.pages.len(), 1, "one page");

    let page = &comp.pages[0];
    assert_eq!(page.buttons.len(), 2, "two buttons");

    assert_eq!(page.buttons[0].button_id, 0, "button 0 id");
    assert_eq!(page.buttons[0].x, 100, "button 0 x");
    assert_eq!(page.buttons[0].y, 200, "button 0 y");
    assert_eq!(page.buttons[0].normal_object_id, 0, "button 0 normal obj");
    assert_eq!(
        page.buttons[0].selected_object_id, 1,
        "button 0 selected obj"
    );
    assert_eq!(
        page.buttons[0].commands,
        vec![NavigationCommand::PlayPl { playlist: 203 }],
        "button 0 PlayPL command"
    );

    assert_eq!(
        page.buttons[1].commands,
        vec![NavigationCommand::PlayPl { playlist: 204 }],
        "button 1 PlayPL command"
    );
}

#[test]
fn multi_page_composition() {
    let data = IgBuilder::new()
        .composition(
            1920,
            1080,
            &[
                PageSpec {
                    page_id: 0,
                    buttons: vec![ButtonSpec {
                        button_id: 0,
                        x: 10,
                        y: 20,
                        normal_object_id: 0,
                        selected_object_id: 1,
                        commands: vec![CommandSpec::PlayPl(100)],
                    }],
                },
                PageSpec {
                    page_id: 1,
                    buttons: vec![ButtonSpec {
                        button_id: 1,
                        x: 30,
                        y: 40,
                        normal_object_id: 2,
                        selected_object_id: 3,
                        commands: vec![CommandSpec::PlayPl(101)],
                    }],
                },
            ],
        )
        .end_of_display()
        .build();

    let stream = parse(&data).expect("should parse multi-page composition");
    let comp = &stream.display_sets[0].compositions[0];
    assert_eq!(comp.pages.len(), 2, "two pages");
    assert_eq!(comp.pages[0].page_id, 0, "page 0 id");
    assert_eq!(comp.pages[1].page_id, 1, "page 1 id");
    assert_eq!(comp.pages[0].buttons.len(), 1, "page 0 button count");
    assert_eq!(comp.pages[1].buttons.len(), 1, "page 1 button count");
}

#[test]
fn button_with_no_commands() {
    let data = IgBuilder::new()
        .composition(
            1920,
            1080,
            &[PageSpec {
                page_id: 0,
                buttons: vec![ButtonSpec {
                    button_id: 0,
                    x: 10,
                    y: 20,
                    normal_object_id: 0,
                    selected_object_id: 1,
                    commands: vec![],
                }],
            }],
        )
        .end_of_display()
        .build();

    let stream = parse(&data).expect("should parse button with no commands");
    let button = &stream.display_sets[0].compositions[0].pages[0].buttons[0];
    assert!(button.commands.is_empty(), "empty commands list");
}

#[test]
fn button_with_non_play_pl_commands() {
    let other_opcode: u32 = 0x1000_0000; // some non-PlayPL opcode
    let data = IgBuilder::new()
        .composition(
            1920,
            1080,
            &[PageSpec {
                page_id: 0,
                buttons: vec![ButtonSpec {
                    button_id: 0,
                    x: 10,
                    y: 20,
                    normal_object_id: 0,
                    selected_object_id: 1,
                    commands: vec![CommandSpec::Other(other_opcode)],
                }],
            }],
        )
        .end_of_display()
        .build();

    let stream = parse(&data).expect("should parse non-PlayPL commands");
    let button = &stream.display_sets[0].compositions[0].pages[0].buttons[0];
    assert_eq!(
        button.commands,
        vec![NavigationCommand::Other {
            opcode: other_opcode
        }],
        "command wrapped as Other"
    );
}

#[test]
fn single_segment_object() {
    let rle = vec![0x01, 0x02, 0x03, 0x04];
    let data = IgBuilder::new()
        .object(42, 100, 30, &rle)
        .end_of_display()
        .build();

    let stream = parse(&data).expect("should parse single-segment object");
    let obj = &stream.display_sets[0].objects[0];
    assert_eq!(obj.object_id, 42, "object id");
    assert_eq!(obj.width, 100, "object width");
    assert_eq!(obj.height, 30, "object height");
    assert_eq!(obj.rle_data, rle, "RLE data");
}

#[test]
fn multi_segment_object() {
    let chunk1 = vec![0x01, 0x02];
    let chunk2 = vec![0x03, 0x04];
    let chunk3 = vec![0x05, 0x06];
    let total_rle_len = chunk1.len() + chunk2.len() + chunk3.len();

    let data = IgBuilder::new()
        .object_first(7, 200, 50, total_rle_len, &chunk1)
        .object_middle(7, &chunk2)
        .object_last(7, &chunk3)
        .end_of_display()
        .build();

    let stream = parse(&data).expect("should parse multi-segment object");
    let obj = &stream.display_sets[0].objects[0];
    assert_eq!(obj.object_id, 7, "object id");
    assert_eq!(obj.width, 200, "object width");
    assert_eq!(obj.height, 50, "object height");
    assert_eq!(
        obj.rle_data,
        vec![0x01, 0x02, 0x03, 0x04, 0x05, 0x06],
        "reassembled RLE data"
    );
}

#[test]
fn palette_with_multiple_entries() {
    let data = IgBuilder::new()
        .palette(
            5,
            &[
                (0, 235, 128, 128, 255), // white, opaque
                (1, 16, 128, 128, 255),  // black, opaque
                (2, 81, 90, 240, 128),   // blue, semi-transparent
            ],
        )
        .end_of_display()
        .build();

    let stream = parse(&data).expect("should parse palette");
    let pal = &stream.display_sets[0].palettes[0];
    assert_eq!(pal.palette_id, 5, "palette id");
    assert_eq!(pal.entries.len(), 3, "entry count");

    assert_eq!(pal.entries[0].index, 0, "entry 0 index");
    assert_eq!(pal.entries[0].y, 235, "entry 0 Y");
    assert_eq!(pal.entries[0].cr, 128, "entry 0 Cr");
    assert_eq!(pal.entries[0].cb, 128, "entry 0 Cb");
    assert_eq!(pal.entries[0].alpha, 255, "entry 0 alpha");

    assert_eq!(pal.entries[2].index, 2, "entry 2 index");
    assert_eq!(pal.entries[2].alpha, 128, "entry 2 alpha");
}

#[test]
fn complete_ig_stream_button_to_playlist_mapping() {
    let rle_normal = vec![0xAA; 10];
    let rle_selected = vec![0xBB; 10];

    let data = IgBuilder::new()
        .palette(0, &[(0, 235, 128, 128, 255), (1, 16, 128, 128, 0)])
        .object(0, 120, 30, &rle_normal)
        .object(1, 120, 30, &rle_selected)
        .object(2, 120, 30, &rle_normal)
        .object(3, 120, 30, &rle_selected)
        .composition(
            1920,
            1080,
            &[PageSpec {
                page_id: 0,
                buttons: vec![
                    ButtonSpec {
                        button_id: 0,
                        x: 100,
                        y: 200,
                        normal_object_id: 0,
                        selected_object_id: 1,
                        commands: vec![CommandSpec::PlayPl(203)],
                    },
                    ButtonSpec {
                        button_id: 1,
                        x: 100,
                        y: 260,
                        normal_object_id: 2,
                        selected_object_id: 3,
                        commands: vec![CommandSpec::PlayPl(204)],
                    },
                ],
            }],
        )
        .end_of_display()
        .build();

    let stream = parse(&data).expect("should parse complete IG stream");
    assert_eq!(stream.display_sets.len(), 1, "one display set");

    let ds = &stream.display_sets[0];

    // Verify palette
    assert_eq!(ds.palettes.len(), 1, "one palette");
    assert_eq!(ds.palettes[0].entries.len(), 2, "two palette entries");

    // Verify objects
    assert_eq!(ds.objects.len(), 4, "four objects");
    for obj in &ds.objects {
        assert_eq!(obj.width, 120, "object width");
        assert_eq!(obj.height, 30, "object height");
    }

    // Verify button → playlist mapping
    let comp = &ds.compositions[0];
    let buttons = &comp.pages[0].buttons;
    assert_eq!(buttons.len(), 2, "two buttons");

    // Button 0 → playlist 203
    assert_eq!(buttons[0].normal_object_id, 0, "button 0 normal obj");
    assert_eq!(buttons[0].selected_object_id, 1, "button 0 selected obj");
    assert_eq!(
        buttons[0].commands,
        vec![NavigationCommand::PlayPl { playlist: 203 }],
        "button 0 plays playlist 203"
    );

    // Button 1 → playlist 204
    assert_eq!(buttons[1].normal_object_id, 2, "button 1 normal obj");
    assert_eq!(buttons[1].selected_object_id, 3, "button 1 selected obj");
    assert_eq!(
        buttons[1].commands,
        vec![NavigationCommand::PlayPl { playlist: 204 }],
        "button 1 plays playlist 204"
    );

    // Verify object IDs referenced by buttons exist in the display set
    let obj_ids: Vec<u16> = ds.objects.iter().map(|o| o.object_id).collect();
    for button in buttons {
        assert!(
            obj_ids.contains(&button.normal_object_id),
            "normal object {} exists in display set",
            button.normal_object_id
        );
        assert!(
            obj_ids.contains(&button.selected_object_id),
            "selected object {} exists in display set",
            button.selected_object_id
        );
    }
}

#[test]
fn interleaved_bitmaps_are_put_together() {
    let data = IgBuilder::new()
        .object_first(1, 4, 2, 6, &[1, 2])
        .object_first(2, 8, 3, 4, &[11])
        .object_middle(1, &[3])
        .object_middle(2, &[12, 13])
        .object_last(1, &[4, 5, 6])
        .object_last(2, &[14])
        .end_of_display()
        .build();
    let stream = parse(&data).expect("should parse");
    let objects = &stream.display_sets[0].objects;
    assert_eq!(objects.len(), 2);
    assert_eq!((objects[0].object_id, objects[0].width, objects[0].height), (1, 4, 2));
    assert_eq!(objects[0].rle_data, vec![1, 2, 3, 4, 5, 6]);
    assert_eq!((objects[1].object_id, objects[1].width, objects[1].height), (2, 8, 3));
    assert_eq!(objects[1].rle_data, vec![11, 12, 13, 14]);
}
