//! Title tables.
use reliquary_bdmv::index::{parse, resolve_title_playlists, ObjectType};
use reliquary_bdmv::mobj::{Instruction, MovieObject, MovieObjectFile};

const OBJECT_TYPE_HDMV: u32 = 1;
const OBJECT_TYPE_BDJ: u32 = 2;

/// Builds a synthetic `index.bdmv` for testing.
struct IndexBuilder {
    first_play: ObjectType,
    top_menu: ObjectType,
    titles: Vec<(u8, ObjectType)>,
}

impl IndexBuilder {
    fn new() -> Self {
        Self {
            first_play: ObjectType::Hdmv {
                playback_type: 0,
                id_ref: 0,
            },
            top_menu: ObjectType::Hdmv {
                playback_type: 1,
                id_ref: 1,
            },
            titles: Vec::new(),
        }
    }

    fn first_play_hdmv(mut self, id_ref: u16) -> Self {
        self.first_play = ObjectType::Hdmv {
            playback_type: 0,
            id_ref,
        };
        self
    }

    fn top_menu_hdmv(mut self, id_ref: u16) -> Self {
        self.top_menu = ObjectType::Hdmv {
            playback_type: 1,
            id_ref,
        };
        self
    }

    fn hdmv_title(mut self, access_type: u8, id_ref: u16) -> Self {
        self.titles.push((
            access_type,
            ObjectType::Hdmv {
                playback_type: 0,
                id_ref,
            },
        ));
        self
    }

    fn bdj_title(mut self, access_type: u8, name: &str) -> Self {
        self.titles.push((
            access_type,
            ObjectType::Bdj {
                playback_type: 0,
                name: name.to_owned(),
            },
        ));
        self
    }

    fn build(&self) -> Vec<u8> {
        let mut data = Vec::new();

        // Header (16 bytes)
        data.extend_from_slice(b"INDX"); // magic
        data.extend_from_slice(b"0200"); // version
        let index_start: u32 = 40; // after 40-byte app info area
        data.extend_from_slice(&index_start.to_be_bytes());
        data.extend_from_slice(&0u32.to_be_bytes()); // extension_data_start

        // AppInfo padding (40 - 16 = 24 bytes)
        data.resize(40, 0);

        // Index section
        let index_body_start = data.len();

        // index_length placeholder (4 bytes)
        data.extend_from_slice(&0u32.to_be_bytes());

        // first_play (12 bytes: 4 header + 8 body)
        Self::write_play_item(&mut data, &self.first_play);

        // top_menu (12 bytes: 4 header + 8 body)
        Self::write_play_item(&mut data, &self.top_menu);

        // num_titles
        let num_titles = self.titles.len() as u16;
        data.extend_from_slice(&num_titles.to_be_bytes());

        // titles
        for (access_type, object) in &self.titles {
            Self::write_title(&mut data, *access_type, object);
        }

        // Patch index_length
        let index_length = (data.len() - index_body_start - 4) as u32;
        data[index_body_start..index_body_start + 4]
            .copy_from_slice(&index_length.to_be_bytes());

        data
    }

    fn write_play_item(data: &mut Vec<u8>, object: &ObjectType) {
        match object {
            ObjectType::Hdmv {
                playback_type,
                id_ref,
            } => {
                // Header: object_type=HDMV(1) in top 2 bits + 30 bits reserved
                let header = OBJECT_TYPE_HDMV << 30;
                data.extend_from_slice(&header.to_be_bytes());
                // Body: playback_type (2 bits) + reserved (14 bits) + id_ref (16 bits)
                let word = (u32::from(*playback_type) << 30) | u32::from(*id_ref);
                data.extend_from_slice(&word.to_be_bytes());
                // 4 bytes reserved
                data.extend_from_slice(&0u32.to_be_bytes());
            }
            ObjectType::Bdj {
                playback_type,
                name,
            } => {
                // Header: object_type=BDJ(2) in top 2 bits + 30 bits reserved
                let header = OBJECT_TYPE_BDJ << 30;
                data.extend_from_slice(&header.to_be_bytes());
                // Body: playback_type (2 bits) + reserved (14 bits) = 2 bytes
                let pb_bytes = u16::from(*playback_type) << 14;
                data.extend_from_slice(&pb_bytes.to_be_bytes());
                // 5-byte name
                let mut name_bytes = [0u8; 5];
                for (i, b) in name.as_bytes().iter().take(5).enumerate() {
                    name_bytes[i] = *b;
                }
                data.extend_from_slice(&name_bytes);
                // 1 byte reserved
                data.push(0);
            }
        }
    }

    fn write_title(data: &mut Vec<u8>, access_type: u8, object: &ObjectType) {
        match object {
            ObjectType::Hdmv {
                playback_type,
                id_ref,
            } => {
                // Header: object_type=HDMV(1) (2 bits) + access_type (2 bits) + 28 bits reserved
                let header = (OBJECT_TYPE_HDMV << 30) | (u32::from(access_type) << 28);
                data.extend_from_slice(&header.to_be_bytes());
                // Body: playback_type (2 bits) + reserved (14 bits) + id_ref (16 bits)
                let word = (u32::from(*playback_type) << 30) | u32::from(*id_ref);
                data.extend_from_slice(&word.to_be_bytes());
                // 4 bytes reserved
                data.extend_from_slice(&0u32.to_be_bytes());
            }
            ObjectType::Bdj {
                playback_type,
                name,
            } => {
                // Header: object_type=BDJ(2) (2 bits) + access_type (2 bits) + 28 bits reserved
                let header = (OBJECT_TYPE_BDJ << 30) | (u32::from(access_type) << 28);
                data.extend_from_slice(&header.to_be_bytes());
                // Body: playback_type (2 bits) + reserved (14 bits) = 2 bytes
                let pb_bytes = u16::from(*playback_type) << 14;
                data.extend_from_slice(&pb_bytes.to_be_bytes());
                // 5-byte name
                let mut name_bytes = [0u8; 5];
                for (i, b) in name.as_bytes().iter().take(5).enumerate() {
                    name_bytes[i] = *b;
                }
                data.extend_from_slice(&name_bytes);
                // 1 byte reserved
                data.push(0);
            }
        }
    }
}

#[test]
fn parse_three_hdmv_titles() {
    let data = IndexBuilder::new()
        .first_play_hdmv(0)
        .top_menu_hdmv(1)
        .hdmv_title(0, 2)
        .hdmv_title(0, 3)
        .hdmv_title(0, 4)
        .build();

    let index = parse(&data).expect("should parse valid index");

    assert_eq!(index.titles.len(), 3, "should have 3 titles");

    // Verify first_play
    assert!(
        matches!(&index.first_play.object, ObjectType::Hdmv { id_ref: 0, .. }),
        "first_play should be HDMV with id_ref 0"
    );

    // Verify top_menu
    assert!(
        matches!(&index.top_menu.object, ObjectType::Hdmv { id_ref: 1, .. }),
        "top_menu should be HDMV with id_ref 1"
    );

    // Verify titles
    assert!(
        matches!(&index.titles[0].object, ObjectType::Hdmv { id_ref: 2, .. }),
        "title 0 should be HDMV with id_ref 2"
    );
    assert!(
        matches!(&index.titles[1].object, ObjectType::Hdmv { id_ref: 3, .. }),
        "title 1 should be HDMV with id_ref 3"
    );
    assert!(
        matches!(&index.titles[2].object, ObjectType::Hdmv { id_ref: 4, .. }),
        "title 2 should be HDMV with id_ref 4"
    );
}

#[test]
fn parse_bdj_title() {
    let data = IndexBuilder::new().bdj_title(0, "00001").build();

    let index = parse(&data).expect("should parse index with BD-J title");

    assert_eq!(index.titles.len(), 1, "should have 1 title");
    assert!(
        matches!(&index.titles[0].object, ObjectType::Bdj { name, .. } if name == "00001"),
        "title should be BD-J with name '00001'"
    );
}

#[test]
fn parse_mixed_hdmv_and_bdj() {
    let data = IndexBuilder::new()
        .hdmv_title(0, 2)
        .bdj_title(0, "00003")
        .hdmv_title(1, 5)
        .build();

    let index = parse(&data).expect("should parse mixed index");
    assert_eq!(index.titles.len(), 3, "should have 3 titles");

    // Title 0: HDMV
    assert!(
        matches!(&index.titles[0].object, ObjectType::Hdmv { id_ref: 2, .. }),
        "title 0 should be HDMV with id_ref 2"
    );

    // Title 1: BD-J
    assert!(
        matches!(&index.titles[1].object, ObjectType::Bdj { name, .. } if name == "00003"),
        "title 1 should be BD-J with name '00003'"
    );

    // Title 2: HDMV with access_type 1
    assert_eq!(
        index.titles[2].access_type, 1,
        "title 2 should have access_type 1"
    );
    assert!(
        matches!(&index.titles[2].object, ObjectType::Hdmv { id_ref: 5, .. }),
        "title 2 should be HDMV with id_ref 5"
    );
}

#[test]
fn parse_truncated_file() {
    let result = parse(&[0x49, 0x4E, 0x44, 0x58, 0x30, 0x31]);
    assert!(result.is_err(), "truncated file should fail");
}

#[test]
fn parse_wrong_magic() {
    let mut data = IndexBuilder::new().build();
    data[0..4].copy_from_slice(b"MOBJ");

    let result = parse(&data);
    assert!(result.is_err(), "wrong magic should fail");
    let err = result.expect_err("should be InvalidMagic").message();
    assert!(
        err.contains("INDX"),
        "error should mention the expected magic"
    );
}

#[test]
fn parse_empty_title_table() {
    let data = IndexBuilder::new().build();
    let index = parse(&data).expect("should parse index with no titles");
    assert!(index.titles.is_empty(), "should have no titles");
}

/// Builds a minimal MOBJ file with objects whose instructions are
/// `PlayPl(immediate)` for the given playlist numbers.
fn build_mobj_file(play_pls: &[u16]) -> MovieObjectFile {

    // BRANCH group = 0, PLAY sub-group = 2 (private consts in mobj)
    const GRP_BRANCH: u8 = 0;
    const BRANCH_PLAY: u8 = 2;

    let objects: Vec<MovieObject> = play_pls
        .iter()
        .map(|&pl| {
            // Encode PlayPl(immediate): group=BRANCH, sub_group=PLAY,
            // imm_op1=true, dst=playlist number
            MovieObject {
                instructions: vec![Instruction {
                    op_cnt: 1,
                    group: GRP_BRANCH,
                    sub_group: BRANCH_PLAY,
                    imm_op1: true,
                    imm_op2: true,
                    branch_opt: 0,
                    cmp_opt: 0,
                    set_opt: 0,
                    dst: u32::from(pl),
                    src: 0,
                }],
            }
        })
        .collect();

    MovieObjectFile { objects }
}

#[test]
fn resolve_titles_to_playlists() {
    // MOBJs: 0→FBI (PL 999), 1→menu (PL 998), 2→PL 100, 3→PL 201, 4→PL 202
    let mobj_file = build_mobj_file(&[999, 998, 100, 201, 202]);

    let data = IndexBuilder::new()
        .first_play_hdmv(0)
        .top_menu_hdmv(1)
        .hdmv_title(0, 2)
        .hdmv_title(0, 3)
        .hdmv_title(0, 4)
        .build();

    let index = parse(&data).expect("should parse");
    let resolved = resolve_title_playlists(&index, &mobj_file, None);

    assert_eq!(resolved.len(), 3, "should resolve 3 title playlists");
    assert!(resolved.contains(&100), "should contain PL 100");
    assert!(resolved.contains(&201), "should contain PL 201");
    assert!(resolved.contains(&202), "should contain PL 202");
    // first_play and top_menu should NOT be included
    assert!(
        !resolved.contains(&999),
        "first_play PL should not be included"
    );
    assert!(
        !resolved.contains(&998),
        "top_menu PL should not be included"
    );
}

#[test]
fn resolve_skips_bdj_titles() {
    let mobj_file = build_mobj_file(&[999, 998, 100]);

    let data = IndexBuilder::new()
        .hdmv_title(0, 2)
        .bdj_title(0, "00003")
        .build();

    let index = parse(&data).expect("should parse");
    let resolved = resolve_title_playlists(&index, &mobj_file, None);

    assert_eq!(resolved.len(), 1, "should resolve only HDMV title");
    assert!(resolved.contains(&100), "should contain PL 100");
}

#[test]
fn resolve_handles_out_of_bounds_mobj() {
    // Only 2 MOBJs but title references MOBJ 5
    let mobj_file = build_mobj_file(&[100, 200]);

    let data = IndexBuilder::new().hdmv_title(0, 5).build();

    let index = parse(&data).expect("should parse");
    let resolved = resolve_title_playlists(&index, &mobj_file, None);

    assert!(
        resolved.is_empty(),
        "out-of-bounds MOBJ reference should produce empty set"
    );
}
