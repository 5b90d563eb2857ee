//! Unit keys, aligned units and clips.
use std::io::{Cursor, Read, Seek, SeekFrom, Write};

use aes::Aes128;
use cbc::Encryptor as CbcEncryptor;
use cipher::block_padding::NoPadding;
use cipher::{BlockEncrypt, BlockEncryptMut, KeyInit, KeyIvInit};
use sha1::Digest;

use reliquary_bdmv::aacs::{
    decrypt_block, decrypt_clip, decrypt_m2ts, decrypt_unit_keys, disc_id, find_unit_key,
    parse_unit_key_file, verify_ts_sync, AacsError, AacsKeys, DecryptStats,
    StreamProgress, UnitKeyFile, ALIGNED_UNIT_LEN, UNIT_KEY_PATH,
};
use reliquary_bdmv::reader::ReaderError;

/// Initialisation vector of aligned units.
const AACS_IV: [u8; 16] = [
    0x0B, 0xA0, 0xF8, 0xDD, 0xFE, 0xA6, 0x1F, 0xB3, 0xD8, 0xDF, 0x9F, 0x56, 0x6A, 0x05, 0x0F, 0x78,
];

/// The outcome of reading the unit key file of a disc without one.
fn missing() -> Result<Vec<u8>, ReaderError> {
    Err(ReaderError::NotFound { path: UNIT_KEY_PATH.to_string() })
}

/// Decrypts a part of a file in place, unit by unit.
fn decrypt_stream(
    keys: &AacsKeys,
    file: &mut Cursor<Vec<u8>>,
    offset: u64,
    length: u64,
) -> Result<DecryptStats, AacsError> {
    let mut progress = StreamProgress::new(offset, length);
    while let Some(position) = progress.next_unit() {
        let mut block = [0u8; ALIGNED_UNIT_LEN];
        file.seek(SeekFrom::Start(position)).expect("should seek");
        file.read_exact(&mut block).expect("should read");
        if keys.decrypt_unit(&mut progress, &mut block)? {
            file.seek(SeekFrom::Start(position)).expect("should seek");
            file.write_all(&block).expect("should write");
        }
    }
    Ok(progress.stats)
}

/// Builds a valid `Unit_Key_RO.inf` binary.
struct UnitKeyBuilder {
    keys: Vec<[u8; 16]>,
    first_play_unit: u16,
    top_menu_unit: u16,
    title_units: Vec<u16>,
}

impl UnitKeyBuilder {
    fn new() -> Self {
        Self {
            keys: Vec::new(),
            first_play_unit: 1,
            top_menu_unit: 1,
            title_units: Vec::new(),
        }
    }

    fn unit_key(mut self, key: [u8; 16]) -> Self {
        self.keys.push(key);
        self
    }

    fn first_play(mut self, unit: u16) -> Self {
        self.first_play_unit = unit;
        self
    }

    fn top_menu(mut self, unit: u16) -> Self {
        self.top_menu_unit = unit;
        self
    }

    fn title(mut self, cps_unit: u16) -> Self {
        self.title_units.push(cps_unit);
        self
    }

    fn build(&self) -> Vec<u8> {
        // Title mapping section size
        let title_section_size = 6 + self.title_units.len() * 4;
        // uk_pos is after: 20-byte header + title mapping section
        let uk_pos: u32 = (20 + title_section_size) as u32;
        let key_table_size = 48 + self.keys.len() * 48;
        let total = uk_pos as usize + key_table_size;

        let mut data = vec![0u8; total];

        // uk_pos at offset 0
        data[0..4].copy_from_slice(&uk_pos.to_be_bytes());

        // Title mapping at offset 20
        data[20..22].copy_from_slice(&self.first_play_unit.to_be_bytes());
        data[22..24].copy_from_slice(&self.top_menu_unit.to_be_bytes());
        let num_titles = self.title_units.len() as u16;
        data[24..26].copy_from_slice(&num_titles.to_be_bytes());
        for (i, &unit) in self.title_units.iter().enumerate() {
            let offset = 26 + i * 4 + 2; // CPS unit at +2 within entry
            data[offset..offset + 2].copy_from_slice(&unit.to_be_bytes());
        }

        // Key table at uk_pos
        let uk_start = uk_pos as usize;
        let num_uk = self.keys.len() as u16;
        data[uk_start..uk_start + 2].copy_from_slice(&num_uk.to_be_bytes());

        // Key entries at uk_pos + 48, stride 48
        for (i, key) in self.keys.iter().enumerate() {
            let offset = uk_start + 48 + i * 48;
            data[offset..offset + 16].copy_from_slice(key);
        }

        data
    }
}

/// Builds an encrypted 6144-byte aligned unit from known plaintext.
struct EncryptedBlockBuilder {
    unit_key: [u8; 16],
    /// 32 TS packets of 192 bytes each, with valid sync bytes.
    plaintext: [u8; ALIGNED_UNIT_LEN],
}

impl EncryptedBlockBuilder {
    fn new(unit_key: [u8; 16]) -> Self {
        // Build valid TS packet data: sync byte at offset 4 of each
        // 192-byte packet
        let mut plaintext = [0u8; ALIGNED_UNIT_LEN];
        // Set TP_extra_header byte 0 with encryption flag (will be set
        // during build)
        for i in 0..32 {
            plaintext[i * 192 + 4] = 0x47; // TS sync byte
        }
        Self {
            unit_key,
            plaintext,
        }
    }

    /// Sets the first 16 bytes (the plaintext seed used for key derivation).
    fn seed(mut self, seed: [u8; 16]) -> Self {
        self.plaintext[..16].copy_from_slice(&seed);
        self
    }

    fn build(&self) -> [u8; ALIGNED_UNIT_LEN] {
        let mut block = self.plaintext;

        // Set encryption flag and ensure valid TS structure
        block[0] |= 0xC0;
        block[4] = 0x47; // TS sync byte must survive seed

        // Derive per-block key (same algorithm as decrypt, but we encrypt
        // to produce the ciphertext)
        let cipher = Aes128::new((&self.unit_key).into());
        let mut derived_key_block = aes::Block::clone_from_slice(&block[..16]);
        cipher.encrypt_block(&mut derived_key_block);

        let mut derived_key = [0u8; 16];
        for (i, byte) in derived_key.iter_mut().enumerate() {
            *byte = derived_key_block[i] ^ block[i];
        }

        // CBC-encrypt the content portion (bytes 16..6144)
        let encryptor = CbcEncryptor::<Aes128>::new(&derived_key.into(), &AACS_IV.into());
        encryptor
            .encrypt_padded_mut::<NoPadding>(&mut block[16..], ALIGNED_UNIT_LEN - 16)
            .expect("encryption should succeed on aligned data");

        block
    }
}

#[test]
fn parse_single_key() {
    let key = [0xAA; 16];
    let data = UnitKeyBuilder::new()
        .unit_key(key)
        .first_play(1)
        .top_menu(1)
        .title(1)
        .build();

    let file = parse_unit_key_file(&data).expect("should parse valid file");
    assert_eq!(file.encrypted_keys.len(), 1, "should have 1 key");
    assert_eq!(file.encrypted_keys[0], key, "key bytes should match");
}

#[test]
fn parse_multiple_keys() {
    let data = UnitKeyBuilder::new()
        .unit_key([0x11; 16])
        .unit_key([0x22; 16])
        .unit_key([0x33; 16])
        .title(1)
        .title(2)
        .build();

    let file = parse_unit_key_file(&data).expect("should parse valid file");
    assert_eq!(file.encrypted_keys.len(), 3, "should have 3 keys");
    assert_eq!(file.encrypted_keys[0], [0x11; 16], "key 0 should match");
    assert_eq!(file.encrypted_keys[1], [0x22; 16], "key 1 should match");
    assert_eq!(file.encrypted_keys[2], [0x33; 16], "key 2 should match");
}

#[test]
fn aacs_reject_truncated_file() {
    let result = parse_unit_key_file(&[0x00, 0x01]);
    assert!(result.is_err(), "should reject file shorter than header");
}

#[test]
fn reject_uk_pos_beyond_eof() {
    // uk_pos points to offset 1000, but file is only 100 bytes
    let mut data = vec![0u8; 100];
    data[0..4].copy_from_slice(&1000u32.to_be_bytes());

    let result = parse_unit_key_file(&data);
    assert!(result.is_err(), "should reject uk_pos beyond EOF");
}

#[test]
fn decrypt_unit_key_round_trip() {
    let vuk = [0x42; 16];
    let plaintext_key = [0xDE; 16];

    // Encrypt the plaintext key with the VUK to get what would be
    // stored on disc
    let cipher = Aes128::new((&vuk).into());
    let mut encrypted = aes::Block::clone_from_slice(&plaintext_key);
    cipher.encrypt_block(&mut encrypted);

    let mut stored_key = [0u8; 16];
    stored_key.copy_from_slice(&encrypted);

    let file = UnitKeyFile {
        encrypted_keys: vec![stored_key],
    };

    let decrypted = decrypt_unit_keys(&file, &vuk);
    assert_eq!(decrypted.len(), 1, "should have 1 decrypted key");
    assert_eq!(
        decrypted[0], plaintext_key,
        "decrypted key should match original"
    );
}

#[test]
fn decrypt_block_round_trip() {
    let unit_key = [0x55; 16];
    let seed = [
        0x01, 0x02, 0x03, 0x04, 0x05, 0x06, 0x07, 0x08, 0x09, 0x0A, 0x0B, 0x0C, 0x0D, 0x0E,
        0x0F, 0x10,
    ];

    let builder = EncryptedBlockBuilder::new(unit_key).seed(seed);
    let expected_plaintext = builder.plaintext;
    let mut encrypted = builder.build();

    // Encryption flag should be set
    assert_ne!(
        encrypted[0] & 0xC0,
        0,
        "encryption flag should be set before decryption"
    );

    decrypt_block(&mut encrypted, &unit_key);

    // Encryption flag should be cleared
    assert_eq!(
        encrypted[0] & 0xC0,
        0,
        "encryption flag should be cleared after decryption"
    );

    // Content (bytes 16..) should match original plaintext
    assert_eq!(
        &encrypted[16..],
        &expected_plaintext[16..],
        "decrypted content should match original plaintext"
    );
}

#[test]
fn skip_unencrypted_block() {
    let unit_key = [0x55; 16];
    let mut block = [0u8; ALIGNED_UNIT_LEN];
    // Set TS sync bytes but no encryption flag
    for i in 0..32 {
        block[i * 192 + 4] = 0x47;
    }

    let original = block;
    decrypt_m2ts(&mut block, &unit_key);

    assert_eq!(block, original, "unencrypted block should not be modified");
}

#[test]
fn partial_final_block_untouched() {
    let unit_key = [0x55; 16];
    // Data that's 6144 + 100 bytes (one full block + partial)
    let mut data = vec![0u8; ALIGNED_UNIT_LEN + 100];
    // Fill the trailing bytes with a marker
    for byte in &mut data[ALIGNED_UNIT_LEN..] {
        *byte = 0xBE;
    }

    decrypt_m2ts(&mut data, &unit_key);

    // Trailing bytes should be untouched
    for (i, &byte) in data[ALIGNED_UNIT_LEN..].iter().enumerate() {
        assert_eq!(
            byte, 0xBE,
            "trailing byte at offset {i} should be untouched"
        );
    }
}

#[test]
fn valid_ts_sync() {
    let mut block = [0u8; ALIGNED_UNIT_LEN];
    for i in 0..32 {
        block[i * 192 + 4] = 0x47;
    }
    assert!(verify_ts_sync(&block), "valid sync bytes should pass");
}

#[test]
fn invalid_ts_sync() {
    let block = [0u8; ALIGNED_UNIT_LEN]; // no sync bytes
    assert!(!verify_ts_sync(&block), "missing sync bytes should fail");
}

#[test]
fn find_correct_key_among_candidates() {
    let correct_key = [0x77; 16];
    let wrong_key_1 = [0x11; 16];
    let wrong_key_2 = [0x22; 16];

    let encrypted = EncryptedBlockBuilder::new(correct_key)
        .seed([0x01; 16])
        .build();

    let keys = vec![wrong_key_1, wrong_key_2, correct_key];
    let result = find_unit_key(&encrypted, &keys);
    assert_eq!(result, Some(2), "should find the correct key at index 2");
}

#[test]
fn no_valid_key() {
    let real_key = [0x77; 16];
    let wrong_key_1 = [0x11; 16];
    let wrong_key_2 = [0x22; 16];

    let encrypted = EncryptedBlockBuilder::new(real_key)
        .seed([0x01; 16])
        .build();

    let keys = vec![wrong_key_1, wrong_key_2];
    let result = find_unit_key(&encrypted, &keys);
    assert_eq!(result, None, "should find no valid key");
}

#[test]
fn decrypt_clip_full_round_trip() {
    let vuk = [0x42; 16];
    let plaintext_key = [0x77; 16];

    // Encrypt the unit key with the VUK (as stored on disc)
    let cipher = Aes128::new((&vuk).into());
    let mut encrypted_uk = aes::Block::clone_from_slice(&plaintext_key);
    cipher.encrypt_block(&mut encrypted_uk);
    let mut stored_key = [0u8; 16];
    stored_key.copy_from_slice(&encrypted_uk);

    // Build Unit_Key_RO.inf
    let uk_data = UnitKeyBuilder::new().unit_key(stored_key).title(1).build();

    // Build encrypted m2ts (2 blocks)
    let block1 = EncryptedBlockBuilder::new(plaintext_key)
        .seed([0x01; 16])
        .build();
    let block2 = EncryptedBlockBuilder::new(plaintext_key)
        .seed([0x02; 16])
        .build();

    let mut m2ts = Vec::with_capacity(ALIGNED_UNIT_LEN * 2);
    m2ts.extend_from_slice(&block1);
    m2ts.extend_from_slice(&block2);

    let decrypted = decrypt_clip(Ok(uk_data), Ok(m2ts), &vuk, "00100").expect("should decrypt");

    // Verify TS sync in both blocks
    assert_eq!(
        decrypted.len(),
        ALIGNED_UNIT_LEN * 2,
        "output size should match input"
    );
    for block_idx in 0..2 {
        let base = block_idx * ALIGNED_UNIT_LEN;
        for pkt in 0..32 {
            let offset = base + pkt * 192 + 4;
            assert_eq!(
                decrypted[offset], 0x47,
                "TS sync at block {block_idx} packet {pkt} should be 0x47"
            );
        }
    }
}

#[test]
fn decrypt_clip_wrong_vuk() {
    let real_vuk = [0x42; 16];
    let wrong_vuk = [0xFF; 16];
    let plaintext_key = [0x77; 16];

    // Encrypt unit key with real VUK
    let cipher = Aes128::new((&real_vuk).into());
    let mut encrypted_uk = aes::Block::clone_from_slice(&plaintext_key);
    cipher.encrypt_block(&mut encrypted_uk);
    let mut stored_key = [0u8; 16];
    stored_key.copy_from_slice(&encrypted_uk);

    let uk_data = UnitKeyBuilder::new().unit_key(stored_key).title(1).build();
    let block = EncryptedBlockBuilder::new(plaintext_key)
        .seed([0x01; 16])
        .build();

    let result = decrypt_clip(Ok(uk_data), Ok(block.to_vec()), &wrong_vuk, "00100");
    assert!(
        matches!(result, Err(AacsError::DecryptionFailed { .. })),
        "wrong VUK should produce DecryptionFailed"
    );
}

#[test]
fn decrypt_clip_no_unit_key_file() {
    let result = decrypt_clip(missing(), Ok(vec![0u8; ALIGNED_UNIT_LEN]), &[0u8; 16], "00100");
    assert!(
        matches!(result, Err(AacsError::NoUnitKeyFile)),
        "missing Unit_Key_RO.inf should produce NoUnitKeyFile"
    );
}

#[test]
fn decrypt_clip_not_encrypted() {
    let vuk = [0x42; 16];
    let plaintext_key = [0x77; 16];

    // Encrypt unit key with VUK
    let cipher = Aes128::new((&vuk).into());
    let mut encrypted_uk = aes::Block::clone_from_slice(&plaintext_key);
    cipher.encrypt_block(&mut encrypted_uk);
    let mut stored_key = [0u8; 16];
    stored_key.copy_from_slice(&encrypted_uk);

    let uk_data = UnitKeyBuilder::new().unit_key(stored_key).title(1).build();

    // m2ts with no encryption flag set
    let mut m2ts = vec![0u8; ALIGNED_UNIT_LEN];
    for i in 0..32 {
        m2ts[i * 192 + 4] = 0x47;
    }

    let result = decrypt_clip(Ok(uk_data), Ok(m2ts), &vuk, "00100");
    assert!(
        matches!(result, Err(AacsError::NotEncrypted { .. })),
        "unencrypted clip should produce NotEncrypted"
    );
}

#[test]
fn aacs_keys_from_disc_and_decrypt_clip() {
    let vuk = [0x42; 16];
    let plaintext_key = [0x77; 16];

    let cipher = Aes128::new((&vuk).into());
    let mut encrypted_uk = aes::Block::clone_from_slice(&plaintext_key);
    cipher.encrypt_block(&mut encrypted_uk);
    let mut stored_key = [0u8; 16];
    stored_key.copy_from_slice(&encrypted_uk);

    let uk_data = UnitKeyBuilder::new().unit_key(stored_key).title(1).build();
    let block = EncryptedBlockBuilder::new(plaintext_key)
        .seed([0x01; 16])
        .build();

    let keys = AacsKeys::from_disc(Ok(uk_data), &vuk).expect("should parse keys");
    let decrypted = keys
        .decrypt_clip(Ok(block.to_vec()), "00100")
        .expect("should decrypt via AacsKeys");

    assert_eq!(
        decrypted.len(),
        ALIGNED_UNIT_LEN,
        "output size should match input"
    );
    for pkt in 0..32 {
        let offset = pkt * 192 + 4;
        assert_eq!(
            decrypted[offset], 0x47,
            "TS sync at packet {pkt} should be 0x47"
        );
    }
}

#[test]
fn decrypt_stream_encrypted_blocks() {
    let unit_key = [0x55; 16];
    let keys = AacsKeys::from_keys(vec![unit_key]);

    let block1 = EncryptedBlockBuilder::new(unit_key)
        .seed([0x01; 16])
        .build();
    let block2 = EncryptedBlockBuilder::new(unit_key)
        .seed([0x02; 16])
        .build();

    let mut file = Cursor::new(Vec::new());
    file.write_all(&block1).expect("should write block1");
    file.write_all(&block2).expect("should write block2");

    let length = (ALIGNED_UNIT_LEN * 2) as u64;
    let stats = decrypt_stream(&keys, &mut file, 0, length)
        .expect("should decrypt");

    assert_eq!(stats.blocks_decrypted, 2, "should decrypt 2 blocks");
    assert_eq!(stats.blocks_skipped, 0, "should skip 0 blocks");

    // Verify file contents
    file.seek(SeekFrom::Start(0)).expect("should seek");
    let mut result = vec![0u8; ALIGNED_UNIT_LEN * 2];
    file.read_exact(&mut result).expect("should read");

    for block_idx in 0..2 {
        let base = block_idx * ALIGNED_UNIT_LEN;
        assert_eq!(
            result[base] & 0xC0,
            0,
            "encryption flag should be cleared in block {block_idx}"
        );
        for pkt in 0..32 {
            let offset = base + pkt * 192 + 4;
            assert_eq!(
                result[offset], 0x47,
                "TS sync at block {block_idx} packet {pkt} should be 0x47"
            );
        }
    }
}

#[test]
fn decrypt_stream_mixed_blocks() {
    let unit_key = [0x55; 16];
    let keys = AacsKeys::from_keys(vec![unit_key]);

    // Block 1: unencrypted
    let mut unencrypted = [0u8; ALIGNED_UNIT_LEN];
    for i in 0..32 {
        unencrypted[i * 192 + 4] = 0x47;
    }
    // Block 2: encrypted
    let encrypted = EncryptedBlockBuilder::new(unit_key)
        .seed([0x01; 16])
        .build();

    let mut file = Cursor::new(Vec::new());
    file.write_all(&unencrypted)
        .expect("should write unencrypted");
    file.write_all(&encrypted).expect("should write encrypted");

    let length = (ALIGNED_UNIT_LEN * 2) as u64;
    let stats = decrypt_stream(&keys, &mut file, 0, length)
        .expect("should decrypt");

    assert_eq!(stats.blocks_decrypted, 1, "should decrypt 1 block");
    assert_eq!(stats.blocks_skipped, 1, "should skip 1 block");
}

#[test]
fn decrypt_stream_all_unencrypted() {
    let unit_key = [0x55; 16];
    let keys = AacsKeys::from_keys(vec![unit_key]);

    let mut unencrypted = [0u8; ALIGNED_UNIT_LEN];
    for i in 0..32 {
        unencrypted[i * 192 + 4] = 0x47;
    }

    let mut file = Cursor::new(Vec::new());
    file.write_all(&unencrypted).expect("should write block");

    let stats = decrypt_stream(&keys, &mut file, 0, ALIGNED_UNIT_LEN as u64)
        .expect("should not error on unencrypted");

    assert_eq!(stats.blocks_decrypted, 0, "should decrypt 0 blocks");
    assert_eq!(stats.blocks_skipped, 1, "should skip 1 block");
}

#[test]
fn decrypt_stream_file_size_unchanged() {
    let unit_key = [0x55; 16];
    let keys = AacsKeys::from_keys(vec![unit_key]);

    let block = EncryptedBlockBuilder::new(unit_key)
        .seed([0x01; 16])
        .build();
    let original_len = block.len() as u64;

    let mut file = Cursor::new(Vec::new());
    file.write_all(&block).expect("should write block");

    decrypt_stream(&keys, &mut file, 0, original_len)
        .expect("should decrypt");

    let new_len = file.seek(SeekFrom::End(0)).expect("should seek to end");
    assert_eq!(new_len, original_len, "file size should not change");
}

#[test]
fn disc_id_from_synthetic_unit_key_file() {
    let uk_data = UnitKeyBuilder::new().unit_key([0xAA; 16]).title(1).build();

    // Compute expected SHA-1
    let expected_hash = sha1::Sha1::digest(&uk_data);
    let expected_id: String = expected_hash.iter().map(|b| format!("{b:02x}")).collect();

    let result = disc_id(Ok(uk_data)).expect("should compute disc ID");

    assert_eq!(
        result.id, expected_id,
        "disc ID should match SHA-1 of Unit_Key_RO.inf"
    );
    assert_eq!(result.id.len(), 40, "disc ID should be 40 hex characters");
}

#[test]
fn disc_id_no_unit_key_file() {

    let result = disc_id(missing());
    assert!(
        matches!(result, Err(AacsError::NoUnitKeyFile)),
        "should return NoUnitKeyFile when Unit_Key_RO.inf is missing"
    );
}

#[test]
fn stream_may_be_longer_than_any_file() {
    let mut progress = StreamProgress::new(10, u64::MAX);
    assert_eq!(progress.next_unit(), Some(10));
    let keys = AacsKeys::from_keys(vec![]);
    let mut block = [0u8; ALIGNED_UNIT_LEN];
    assert_eq!(keys.decrypt_unit(&mut progress, &mut block), Ok(false));
    assert_eq!(progress.next_unit(), Some(10 + 6144));
    assert_eq!(progress.stats, DecryptStats { blocks_decrypted: 0, blocks_skipped: 1 });
}

#[test]
fn units_of_a_stream_make_the_clip() {
    let unit_key = [0x55; 16];
    let keys = AacsKeys::from_keys(vec![[0x11; 16], unit_key]);
    let mut clip = vec![0u8; ALIGNED_UNIT_LEN];
    for seed in [1, 2] {
        clip.extend_from_slice(&EncryptedBlockBuilder::new(unit_key).seed([seed; 16]).build());
    }
    clip.extend_from_slice(&[0; ALIGNED_UNIT_LEN]);
    clip.extend_from_slice(&[0xC7; 100]);
    let mut file = Cursor::new(vec![9; 50]);
    file.get_mut().extend_from_slice(&clip);
    let stats =
        decrypt_stream(&keys, &mut file, 50, clip.len() as u64).expect("should decrypt");
    assert_eq!(stats, DecryptStats { blocks_decrypted: 2, blocks_skipped: 2 });
    let mut whole = clip.clone();
    keys.decrypt_data(&mut whole, "x").expect("should decrypt");
    assert_ne!(whole, clip);
    assert_eq!(file.get_ref()[50..], whole[..]);
    assert_eq!(file.get_ref()[..50], [9; 50]);

    let others = AacsKeys::from_keys(vec![[0x11; 16]]);
    let mut file = Cursor::new(clip);
    let length = file.get_ref().len() as u64;
    assert_eq!(
        decrypt_stream(&others, &mut file, 0, length),
        Err(AacsError::DecryptionFailed { clip_id: "stream at offset 0x1800".into() })
    );
}
