//! Key databases.
use reliquary_bdmv::aacs::DiscId;
use reliquary_bdmv::keydb::{lookup_keydb, KeydbError};

/// The lines of a database.
fn lines(content: &str) -> Vec<String> {
    content.lines().map(str::to_owned).collect()
}

fn disc_id(hex: &str) -> DiscId {
    DiscId { id: hex.to_owned() }
}

#[test]
fn lookup_finds_correct_vuk() {
    let content = "\
; comment line
0000000000000000000000000000000000000001 = Title A | D | 2020-01-01 | M | 00000000000000000000000000000000 | I | 00000000000000000000000000000000 | V | 0xaabbccdd11223344aabbccdd11223344 | U | 00000000000000000000000000000000 ; comment
0000000000000000000000000000000000000002 = Title B | D | 2020-01-01 | M | 00000000000000000000000000000000 | I | 00000000000000000000000000000000 | V | 0x11111111111111111111111111111111 | U | 00000000000000000000000000000000 ; comment
0000000000000000000000000000000000000003 = Title C | D | 2020-01-01 | M | 00000000000000000000000000000000 | I | 00000000000000000000000000000000 | V | 0x22222222222222222222222222222222 | U | 00000000000000000000000000000000 ; comment
";

    let keydb = lines(content);
    let id = disc_id("0000000000000000000000000000000000000002");

    let result = lookup_keydb(&keydb, &id).expect("should succeed");
    assert_eq!(result, Some([0x11; 16]), "should find VUK for disc ID 2");
}

#[test]
fn lookup_not_found() {
    let content = "\
0000000000000000000000000000000000000001 = Title A | D | 2020-01-01 | M | 00000000000000000000000000000000 | I | 00000000000000000000000000000000 | V | 0xaabbccdd11223344aabbccdd11223344 | U | 00000000000000000000000000000000 ; comment
";

    let keydb = lines(content);
    let id = disc_id("ffffffffffffffffffffffffffffffffffffffff");

    let result = lookup_keydb(&keydb, &id).expect("should succeed");
    assert_eq!(result, None, "should return None for missing disc ID");
}

#[test]
fn lookup_skips_comments_and_key_lines() {
    let content = "\
; This is a comment
| DK | AACS_DK_1234 | 00000000000000000000000000000000
| PK | AACS_PK_5678 | 00000000000000000000000000000000
| HC | AACS_HC_9abc | 00000000000000000000000000000000 | 00000000000000000000000000000000
aabbccddaabbccddaabbccddaabbccddaabbccdd = My Disc | D | 2020-01-01 | M | 00000000000000000000000000000000 | I | 00000000000000000000000000000000 | V | 0x99887766554433221100ffeeddccbbaa | U | 00000000000000000000000000000000 ; comment
";

    let keydb = lines(content);
    let id = disc_id("aabbccddaabbccddaabbccddaabbccddaabbccdd");

    let result = lookup_keydb(&keydb, &id).expect("should succeed");
    let expected: [u8; 16] = [
        0x99, 0x88, 0x77, 0x66, 0x55, 0x44, 0x33, 0x22, 0x11, 0x00, 0xFF, 0xEE, 0xDD, 0xCC,
        0xBB, 0xAA,
    ];
    assert_eq!(
        result,
        Some(expected),
        "should find VUK after skipping non-entry lines"
    );
}

#[test]
fn lookup_case_insensitive_disc_id() {
    // Disc ID in uppercase in file, lowercase in query
    let content = "\
AABBCCDDAABBCCDDAABBCCDDAABBCCDDAABBCCDD = Title | D | 2020-01-01 | M | 00000000000000000000000000000000 | I | 00000000000000000000000000000000 | V | 0x11223344556677889900aabbccddeeff | U | 00000000000000000000000000000000 ; comment
";

    let keydb = lines(content);
    let id = disc_id("aabbccddaabbccddaabbccddaabbccddaabbccdd");

    let result = lookup_keydb(&keydb, &id).expect("should succeed");
    let expected: [u8; 16] = [
        0x11, 0x22, 0x33, 0x44, 0x55, 0x66, 0x77, 0x88, 0x99, 0x00, 0xAA, 0xBB, 0xCC, 0xDD,
        0xEE, 0xFF,
    ];
    assert_eq!(result, Some(expected), "should match case-insensitively");
}

#[test]
fn lookup_malformed_line_no_vuk_marker() {
    // Line matches disc ID but has no | V | marker
    let content = "\
aabbccddaabbccddaabbccddaabbccddaabbccdd = Title | D | 2020-01-01 ; no VUK field
";

    let keydb = lines(content);
    let id = disc_id("aabbccddaabbccddaabbccddaabbccddaabbccdd");

    let result = lookup_keydb(&keydb, &id);
    assert!(
        matches!(result, Err(KeydbError::MalformedEntry { .. })),
        "should return MalformedEntry for line without VUK marker"
    );
}

#[test]
fn lookup_vuk_without_0x_prefix() {
    let content = "\
aabbccddaabbccddaabbccddaabbccddaabbccdd = Title | D | 2020-01-01 | M | 00000000000000000000000000000000 | I | 00000000000000000000000000000000 | V | aabbccddeeff00112233445566778899 | U | 00000000000000000000000000000000 ; comment
";

    let keydb = lines(content);
    let id = disc_id("aabbccddaabbccddaabbccddaabbccddaabbccdd");

    let result = lookup_keydb(&keydb, &id).expect("should succeed");
    let expected: [u8; 16] = [
        0xAA, 0xBB, 0xCC, 0xDD, 0xEE, 0xFF, 0x00, 0x11, 0x22, 0x33, 0x44, 0x55, 0x66, 0x77,
        0x88, 0x99,
    ];
    assert_eq!(result, Some(expected), "should parse VUK without 0x prefix");
}
