//! Decryption of AACS protected clips, given a disc's volume unique key.
//!
//! A clip is a sequence of aligned units of 6144 bytes. A unit is encrypted if
//! one of the top two bits of its first byte is set.
use vstd::prelude::*;
use vstd::string::*;

use crate::crypto::{
    aes128_decrypt, aes128_encrypt, cbc_decrypted, decrypt_aes128, decrypt_cbc, digest_sha1,
    encrypt_aes128, lemma_cbc_len, sha1, xor16,
};
use crate::cursor::{be16, be32, get_u16, get_u32};
use crate::reader::ReaderError;
use crate::text::{concat3, decimal, hex, hex_pairs, to_decimal, to_hex, to_hex_pairs};

pub mod laws;

verus! {

/// Size of an aligned unit: 32 transport stream packets of 192 bytes.
pub const ALIGNED_UNIT_LEN: usize = 6144;

/// Distance between two keys in `Unit_Key_RO.inf`.
pub const KEY_ENTRY_STRIDE: usize = 48;

/// Distance from the key table to its first key.
pub const KEY_TABLE_HEADER_LEN: usize = 48;

/// Number of packets whose sync byte is checked.
pub const SYNC_CHECK_COUNT: usize = 4;

/// Where the encrypted unit keys of a disc are stored.
pub const UNIT_KEY_PATH: &'static str = "AACS/Unit_Key_RO.inf";

/// Why content could not be decrypted.
#[derive(Debug, Clone, PartialEq, Eq)]
pub enum AacsError {
    /// The disc has no unit key file.
    NoUnitKeyFile,
    /// The unit key file is malformed.
    InvalidUnitKeyFile {
        /// What is wrong with it.
        reason: String,
    },
    /// The clip has no encrypted unit.
    NotEncrypted {
        /// Clip identifier.
        clip_id: String,
    },
    /// No unit key fits the clip.
    DecryptionFailed {
        /// Clip identifier.
        clip_id: String,
    },
    /// A file of the disc could not be read.
    ReadError(ReaderError),
    /// Reading or writing a stream failed.
    Io {
        /// What went wrong.
        message: String,
    },
}

impl AacsError {
    /// The message of the error.
    pub open spec fn text(self) -> Seq<char> {
        match self {
            AacsError::NoUnitKeyFile =>
                "AACS/Unit_Key_RO.inf not found \u{2014} disc may not be encrypted"@,
            AacsError::InvalidUnitKeyFile { reason } => "invalid Unit_Key_RO.inf: "@ + reason@,
            AacsError::NotEncrypted { clip_id } => "clip "@ + clip_id@
                + " has no encrypted aligned units \u{2014} use read_file directly"@,
            AacsError::DecryptionFailed { clip_id } => "decryption failed for clip "@ + clip_id@
                + " \u{2014} no unit key produced valid TS sync"@,
            AacsError::ReadError(e) => "failed to read m2ts: "@ + e.text(),
            AacsError::Io { message } => "I/O error: "@ + message@,
        }
    }

    /// Describes the error.
    pub fn message(&self) -> (text: String)
        ensures
            text@ == self.text(),
    {
        match self {
            AacsError::NoUnitKeyFile => String::from_str(
                "AACS/Unit_Key_RO.inf not found \u{2014} disc may not be encrypted",
            ),
            AacsError::InvalidUnitKeyFile { reason } => {
                let mut text: String = String::from_str("invalid Unit_Key_RO.inf: ");
                text.append(reason.as_str());
                text
            },
            AacsError::NotEncrypted { clip_id } => concat3(
                "clip ",
                clip_id.as_str(),
                " has no encrypted aligned units \u{2014} use read_file directly",
            ),
            AacsError::DecryptionFailed { clip_id } => concat3(
                "decryption failed for clip ",
                clip_id.as_str(),
                " \u{2014} no unit key produced valid TS sync",
            ),
            AacsError::ReadError(e) => {
                let mut text: String = String::from_str("failed to read m2ts: ");
                text.append(e.message().as_str());
                text
            },
            AacsError::Io { message } => {
                let mut text: String = String::from_str("I/O error: ");
                text.append(message.as_str());
                text
            },
        }
    }
}

/// The parsed unit key file.
#[derive(Debug)]
pub struct UnitKeyFile {
    /// Encrypted unit keys.
    pub encrypted_keys: Vec<[u8; 16]>,
}

/// What decrypting a stream came to.
#[derive(Debug, Clone, Copy, PartialEq, Eq, Structural)]
pub struct DecryptStats {
    /// Number of units that were decrypted.
    pub blocks_decrypted: u64,
    /// Number of units that were not encrypted.
    pub blocks_skipped: u64,
}

/// The identity of a disc: the SHA-1 digest of its unit key file, as 40
/// lowercase hexadecimal digits.
#[derive(Debug, Clone, PartialEq, Eq)]
pub struct DiscId {
    /// The digits.
    pub id: String,
}

/// Decrypted unit keys.
pub struct AacsKeys {
    /// The keys, in file order.
    pub unit_keys: Vec<[u8; 16]>,
}

/// The initialisation vector of all units.
pub open spec fn iv() -> Seq<u8> {
    seq![
        0x0B,
        0xA0,
        0xF8,
        0xDD,
        0xFE,
        0xA6,
        0x1F,
        0xB3,
        0xD8,
        0xDF,
        0x9F,
        0x56,
        0x6A,
        0x05,
        0x0F,
        0x78,
    ]
}

fn aacs_iv() -> (v: [u8; 16])
    ensures
        v@ == iv(),
{
    let v: [u8; 16] = [
        0x0B,
        0xA0,
        0xF8,
        0xDD,
        0xFE,
        0xA6,
        0x1F,
        0xB3,
        0xD8,
        0xDF,
        0x9F,
        0x56,
        0x6A,
        0x05,
        0x0F,
        0x78,
    ];
    assert(v@ =~= iv());
    v
}

// ---------------------------------------------------------------------------
// Unit keys
// ---------------------------------------------------------------------------

/// The bytes of keys.
pub open spec fn keys_of(list: Seq<[u8; 16]>) -> Seq<Seq<u8>> {
    list.map_values(|k: [u8; 16]| k@)
}

/// Where the key table ends.
pub open spec fn keys_end(d: Seq<u8>) -> int {
    let table = be32(d, 0) as int;
    table + KEY_TABLE_HEADER_LEN + be16(d, table) * KEY_ENTRY_STRIDE
}

/// What is wrong with a unit key file. The position of the key table stands
/// at its start, the number of keys at the start of the table.
pub open spec fn key_file_fault(d: Seq<u8>) -> Option<Seq<char>> {
    let table = be32(d, 0) as int;
    if d.len() < 4 {
        Some("file too short for header"@)
    } else if table + 2 > d.len() {
        Some(
            "uk_pos ("@ + decimal(table as nat) + ") points beyond file length ("@ + decimal(
                d.len(),
            ) + ")"@,
        )
    } else if be16(d, table) == 0 {
        Some("no unit keys in file"@)
    } else if keys_end(d) > d.len() {
        Some(
            "key table requires "@ + decimal(keys_end(d) as nat) + " bytes, file has "@ + decimal(
                d.len(),
            ),
        )
    } else {
        None
    }
}

/// The keys in a unit key file.
pub open spec fn keys_in(d: Seq<u8>) -> Seq<Seq<u8>> {
    let table = be32(d, 0) as int;
    Seq::new(
        be16(d, table) as nat,
        |i: int|
            d.subrange(
                table + KEY_TABLE_HEADER_LEN + i * KEY_ENTRY_STRIDE,
                table + KEY_TABLE_HEADER_LEN + i * KEY_ENTRY_STRIDE + 16,
            ),
    )
}

/// Keys decrypted under the volume unique key.
pub open spec fn unwrapped(vuk: Seq<u8>, keys: Seq<Seq<u8>>) -> Seq<Seq<u8>> {
    keys.map_values(|k: Seq<u8>| aes128_decrypt(vuk, k))
}

/// Copies 16 bytes.
fn bytes16(data: &[u8], p: usize) -> (block: [u8; 16])
    requires
        p + 16 <= data@.len(),
    ensures
        block@ == data@.subrange(p as int, p + 16),
{
    let length: usize = data.len();
    assert(p + 16 <= length);
    let mut block: [u8; 16] = [0u8; 16];
    let mut i: usize = 0;
    while i < 16
        invariant
            i <= 16,
            p + 16 <= data@.len(),
            data@.len() == length,
            block@.len() == 16,
            forall|j: int| 0 <= j < i ==> block@[j] == data@[p + j],
        decreases 16 - i,
    {
        block[i] = data[p + i];
        i = i + 1;
    }
    assert(block@ =~= data@.subrange(p as int, p + 16));
    block
}

/// Parses a unit key file.
pub fn parse_unit_key_file(data: &[u8]) -> (result: Result<UnitKeyFile, AacsError>)
    ensures
        match key_file_fault(data@) {
            Some(text) => result matches Err(AacsError::InvalidUnitKeyFile { reason }) && reason@
                == text,
            None => result matches Ok(file) && keys_of(file.encrypted_keys@) == keys_in(data@),
        },
{
    let length: usize = data.len();
    if length < 4 {
        return Err(
            AacsError::InvalidUnitKeyFile { reason: String::from_str("file too short for header") },
        );
    }
    let table: u64 = get_u32(data, 0) as u64;
    if table + 2 > length as u64 {
        let mut reason: String = concat3(
            "uk_pos (",
            to_decimal(table).as_str(),
            ") points beyond file length (",
        );
        reason.append(to_decimal(length as u64).as_str());
        reason.append(")");
        return Err(AacsError::InvalidUnitKeyFile { reason });
    }
    let start: usize = table as usize;
    let count: u16 = get_u16(data, start);
    if count == 0 {
        return Err(
            AacsError::InvalidUnitKeyFile { reason: String::from_str("no unit keys in file") },
        );
    }
    let end: u64 = table + KEY_TABLE_HEADER_LEN as u64 + count as u64 * KEY_ENTRY_STRIDE as u64;
    if end > length as u64 {
        let mut reason: String = concat3(
            "key table requires ",
            to_decimal(end).as_str(),
            " bytes, file has ",
        );
        reason.append(to_decimal(length as u64).as_str());
        return Err(AacsError::InvalidUnitKeyFile { reason });
    }
    let mut encrypted_keys: Vec<[u8; 16]> = Vec::new();
    let mut p: usize = start + KEY_TABLE_HEADER_LEN;
    let mut i: u16 = 0;
    proof {
        assert(keys_of(encrypted_keys@) =~= keys_in(data@).take(0));
    }
    while i < count
        invariant
            i <= count,
            length == data@.len(),
            start == be32(data@, 0),
            count == be16(data@, start as int),
            p == start + KEY_TABLE_HEADER_LEN + i * KEY_ENTRY_STRIDE,
            start + KEY_TABLE_HEADER_LEN + count * KEY_ENTRY_STRIDE <= length,
            keys_of(encrypted_keys@) == keys_in(data@).take(i as int),
        decreases count - i,
    {
        let key: [u8; 16] = bytes16(data, p);
        let ghost before = keys_of(encrypted_keys@);
        encrypted_keys.push(key);
        proof {
            assert(keys_of(encrypted_keys@) =~= before.push(key@));
            assert(keys_in(data@).take(i + 1) =~= before.push(keys_in(data@)[i as int]));
        }
        p = p + KEY_ENTRY_STRIDE;
        i = i + 1;
    }
    proof {
        assert(keys_in(data@).take(count as int) =~= keys_in(data@));
    }
    Ok(UnitKeyFile { encrypted_keys })
}

/// Decrypts unit keys under the volume unique key. Encrypting them again under
/// it gives the keys of the file.
pub fn decrypt_unit_keys(file: &UnitKeyFile, vuk: &[u8; 16]) -> (keys: Vec<[u8; 16]>)
    ensures
        keys_of(keys@) == unwrapped(vuk@, keys_of(file.encrypted_keys@)),
        forall|i: int|
            0 <= i < keys@.len() ==> aes128_encrypt(vuk@, (#[trigger] keys@[i])@)
                == file.encrypted_keys@[i]@,
{
    let ghost all = unwrapped(vuk@, keys_of(file.encrypted_keys@));
    let mut keys: Vec<[u8; 16]> = Vec::new();
    let mut i: usize = 0;
    proof {
        assert(keys_of(keys@) =~= all.take(0));
    }
    while i < file.encrypted_keys.len()
        invariant
            i <= file.encrypted_keys.len(),
            all == unwrapped(vuk@, keys_of(file.encrypted_keys@)),
            keys@.len() == i,
            keys_of(keys@) == all.take(i as int),
            forall|j: int|
                0 <= j < i ==> aes128_encrypt(vuk@, (#[trigger] keys@[j])@)
                    == file.encrypted_keys@[j]@,
        decreases file.encrypted_keys.len() - i,
    {
        let ghost before = keys_of(keys@);
        let key: [u8; 16] = decrypt_aes128(vuk, &file.encrypted_keys[i]);
        keys.push(key);
        proof {
            assert(keys_of(keys@) =~= before.push(key@));
            assert(all.take(i + 1) =~= before.push(all[i as int]));
        }
        i = i + 1;
    }
    proof {
        assert(all.take(i as int) =~= all);
    }
    keys
}

// ---------------------------------------------------------------------------
// Aligned units
// ---------------------------------------------------------------------------

/// Whether the first byte of a unit marks it as encrypted.
pub open spec fn marked(first: u8) -> bool {
    first & 0xC0 != 0
}

/// A unit in the clear. Its first 16 bytes, encrypted under the unit key and
/// combined with themselves, are the key of the rest.
pub open spec fn unit_clear(unit: Seq<u8>, key: Seq<u8>) -> Seq<u8> {
    let head = unit.take(16);
    let content_key = xor16(aes128_encrypt(key, head), head);
    head.update(0, unit[0] & !0xC0u8) + cbc_decrypted(
        content_key,
        iv(),
        unit.subrange(16, ALIGNED_UNIT_LEN as int),
    )
}

/// Whether the first packets of a unit have their sync byte.
pub open spec fn synced(unit: Seq<u8>) -> bool {
    forall|i: int|
        0 <= i < SYNC_CHECK_COUNT ==> #[trigger] (i * 192) + 4 < unit.len() && unit[i * 192 + 4]
            == 0x47
}

/// The first key, from the `i`th on, under which a unit has its sync bytes.
pub open spec fn key_for(unit: Seq<u8>, keys: Seq<Seq<u8>>, i: int) -> Option<int>
    decreases keys.len() - i,
{
    if i >= keys.len() {
        None
    } else if synced(unit_clear(unit, keys[i])) {
        Some(i)
    } else {
        key_for(unit, keys, i + 1)
    }
}

/// The position of the first encrypted unit, from position `p` on.
pub open spec fn first_marked(d: Seq<u8>, p: int) -> Option<int>
    decreases d.len() - p,
{
    if p + ALIGNED_UNIT_LEN > d.len() {
        None
    } else if marked(d[p]) {
        Some(p)
    } else {
        first_marked(d, p + ALIGNED_UNIT_LEN)
    }
}

/// A clip in the clear: each encrypted unit is decrypted. What follows the
/// last whole unit stays as it is.
pub open spec fn clip_clear(d: Seq<u8>, key: Seq<u8>) -> Seq<u8>
    decreases d.len(),
{
    if d.len() < ALIGNED_UNIT_LEN {
        d
    } else {
        let unit = d.take(ALIGNED_UNIT_LEN as int);
        let rest = clip_clear(d.skip(ALIGNED_UNIT_LEN as int), key);
        if marked(d[0]) {
            unit_clear(unit, key) + rest
        } else {
            unit + rest
        }
    }
}

/// A decrypted unit is as long as an encrypted one.
pub proof fn lemma_unit_clear_len(unit: Seq<u8>, key: Seq<u8>)
    requires
        unit.len() >= ALIGNED_UNIT_LEN,
    ensures
        unit_clear(unit, key).len() == ALIGNED_UNIT_LEN,
{
    let head = unit.take(16);
    lemma_cbc_len(
        xor16(aes128_encrypt(key, head), head),
        iv(),
        unit.subrange(16, ALIGNED_UNIT_LEN as int),
    );
}

/// Decrypts the unit at a position in place.
fn decrypt_at(data: &mut [u8], p: usize, unit_key: &[u8; 16])
    requires
        p + ALIGNED_UNIT_LEN <= old(data)@.len(),
    ensures
        final(data)@ == old(data)@.take(p as int) + unit_clear(
            old(data)@.subrange(p as int, p + ALIGNED_UNIT_LEN),
            unit_key@,
        ) + old(data)@.skip(p + ALIGNED_UNIT_LEN),
{
    let length: usize = data.len();
    let ghost all = data@;
    let ghost unit = all.subrange(p as int, p + ALIGNED_UNIT_LEN);
    let ghost clear = unit_clear(unit, unit_key@);
    let head: [u8; 16] = bytes16(data, p);
    let encrypted: [u8; 16] = encrypt_aes128(unit_key, &head);
    let mut key: [u8; 16] = [0u8; 16];
    let mut i: usize = 0;
    while i < 16
        invariant
            i <= 16,
            key@.len() == 16,
            encrypted@.len() == 16,
            head@.len() == 16,
            forall|j: int| 0 <= j < i ==> key@[j] == encrypted@[j] ^ head@[j],
        decreases 16 - i,
    {
        key[i] = encrypted[i] ^ head[i];
        i = i + 1;
    }
    let mut content: Vec<u8> = vstd::slice::slice_to_vec(
        vstd::slice::slice_subrange(data, p + 16, p + ALIGNED_UNIT_LEN),
    );
    proof {
        assert(head@ =~= unit.take(16));
        assert(key@ =~= xor16(aes128_encrypt(unit_key@, unit.take(16)), unit.take(16)));
        assert(content@ =~= unit.subrange(16, ALIGNED_UNIT_LEN as int));
        lemma_cbc_len(key@, iv(), content@);
        lemma_unit_clear_len(unit, unit_key@);
    }
    decrypt_cbc(&key, &aacs_iv(), &mut content);
    data[p] = data[p] & !0xC0u8;
    let mut k: usize = 0;
    while k < content.len()
        invariant
            k <= content.len(),
            content.len() == ALIGNED_UNIT_LEN - 16,
            length == data@.len(),
            length == all.len(),
            p + ALIGNED_UNIT_LEN <= length,
            data@[p as int] == all[p as int] & !0xC0u8,
            forall|j: int|
                0 <= j < length && j != p && !(p + 16 <= j < p + 16 + k) ==> #[trigger] data@[j]
                    == all[j],
            forall|j: int| 0 <= j < k ==> #[trigger] data@[p + 16 + j] == content@[j],
        decreases content.len() - k,
    {
        data[p + 16 + k] = content[k];
        k = k + 1;
    }
    proof {
        let result = all.take(p as int) + clear + all.skip(p + ALIGNED_UNIT_LEN);
        assert(result.len() == all.len());
        assert forall|j: int| 0 <= j < all.len() implies data@[j] == result[j] by {
            if p + 16 <= j < p + ALIGNED_UNIT_LEN {
                assert(data@[p + 16 + (j - p - 16)] == content@[j - p - 16]);
            }
        }
        assert(data@ =~= result);
    }
}

/// Decrypts a unit in place.
pub fn decrypt_block(block: &mut [u8], unit_key: &[u8; 16])
    requires
        old(block)@.len() >= ALIGNED_UNIT_LEN,
    ensures
        final(block)@ == unit_clear(old(block)@, unit_key@) + old(block)@.skip(
            ALIGNED_UNIT_LEN as int,
        ),
{
    let ghost all = block@;
    decrypt_at(block, 0, unit_key);
    proof {
        let unit = all.subrange(0, ALIGNED_UNIT_LEN as int);
        assert(unit.take(16) =~= all.take(16));
        assert(unit.subrange(16, ALIGNED_UNIT_LEN as int) =~= all.subrange(
            16,
            ALIGNED_UNIT_LEN as int,
        ));
        assert(block@ =~= unit_clear(all, unit_key@) + all.skip(ALIGNED_UNIT_LEN as int));
    }
}

/// Returns whether the first packets of a unit have their sync byte.
pub fn verify_ts_sync(block: &[u8]) -> (yes: bool)
    ensures
        yes == synced(block@),
{
    let mut i: usize = 0;
    while i < SYNC_CHECK_COUNT
        invariant
            i <= SYNC_CHECK_COUNT,
            forall|j: int|
                0 <= j < i ==> #[trigger] (j * 192) + 4 < block@.len() && block@[j * 192 + 4]
                    == 0x47,
        decreases SYNC_CHECK_COUNT - i,
    {
        let p: usize = i * 192 + 4;
        if p >= block.len() || block[p] != 0x47 {
            assert(!((i as int * 192) + 4 < block@.len() && block@[i as int * 192 + 4] == 0x47));
            return false;
        }
        i = i + 1;
    }
    true
}

/// Finds the first encrypted unit.
pub fn find_first_encrypted_block(data: &[u8]) -> (position: Option<usize>)
    ensures
        match first_marked(data@, 0) {
            Some(p) => position matches Some(q) && q == p && p + ALIGNED_UNIT_LEN <= data@.len(),
            None => position is None,
        },
{
    let mut p: usize = 0;
    while p <= data.len() && data.len() - p >= ALIGNED_UNIT_LEN
        invariant
            p <= data@.len(),
            first_marked(data@, 0) == first_marked(data@, p as int),
        decreases data@.len() - p,
    {
        if data[p] & 0xC0 != 0 {
            return Some(p);
        }
        p = p + ALIGNED_UNIT_LEN;
    }
    None
}

/// Finds the first key under which a unit has its sync bytes.
pub fn find_unit_key(block: &[u8], keys: &[[u8; 16]]) -> (index: Option<usize>)
    requires
        block@.len() == ALIGNED_UNIT_LEN,
    ensures
        match key_for(block@, keys_of(keys@), 0) {
            Some(i) => index matches Some(k) && k == i && 0 <= i < keys@.len(),
            None => index is None,
        },
{
    let mut i: usize = 0;
    while i < keys.len()
        invariant
            i <= keys.len(),
            block@.len() == ALIGNED_UNIT_LEN,
            key_for(block@, keys_of(keys@), 0) == key_for(block@, keys_of(keys@), i as int),
        decreases keys.len() - i,
    {
        let mut trial: Vec<u8> = vstd::slice::slice_to_vec(block);
        decrypt_block(trial.as_mut_slice(), &keys[i]);
        proof {
            assert(trial@ =~= unit_clear(block@, keys_of(keys@)[i as int]));
        }
        if verify_ts_sync(trial.as_slice()) {
            return Some(i);
        }
        i = i + 1;
    }
    None
}

/// Decrypts a clip in place.
pub fn decrypt_m2ts(data: &mut [u8], unit_key: &[u8; 16])
    ensures
        final(data)@ == clip_clear(old(data)@, unit_key@),
{
    let length: usize = data.len();
    let ghost all = data@;
    let mut p: usize = 0;
    proof {
        assert(all.skip(0) =~= all);
        assert(all.take(0) + clip_clear(all, unit_key@) =~= clip_clear(all, unit_key@));
    }
    while length - p >= ALIGNED_UNIT_LEN
        invariant
            p <= length,
            length == data@.len(),
            length == all.len(),
            data@.skip(p as int) == all.skip(p as int),
            data@.take(p as int) + clip_clear(all.skip(p as int), unit_key@) == clip_clear(
                all,
                unit_key@,
            ),
        decreases length - p,
    {
        let ghost before = data@;
        let ghost rest = all.skip(p as int);
        let ghost next = p + ALIGNED_UNIT_LEN;
        proof {
            assert(rest[0] == all[p as int]);
            assert(data@.skip(p as int)[0] == data@[p as int]);
            assert(rest.skip(ALIGNED_UNIT_LEN as int) =~= all.skip(next));
            assert(rest.take(ALIGNED_UNIT_LEN as int) =~= all.subrange(p as int, next));
            assert(before.subrange(p as int, next) =~= rest.take(ALIGNED_UNIT_LEN as int)) by {
                assert(before.subrange(p as int, next) =~= before.skip(p as int).take(
                    ALIGNED_UNIT_LEN as int,
                ));
            }
            assert(before.skip(next) =~= all.skip(next)) by {
                assert(before.skip(next) =~= before.skip(p as int).skip(ALIGNED_UNIT_LEN as int));
            }
        }
        if data[p] & 0xC0 != 0 {
            decrypt_at(data, p, unit_key);
            proof {
                let unit = unit_clear(rest.take(ALIGNED_UNIT_LEN as int), unit_key@);
                lemma_unit_clear_len(rest.take(ALIGNED_UNIT_LEN as int), unit_key@);
                assert(data@.take(next) =~= before.take(p as int) + unit);
                assert(data@.skip(next) =~= before.skip(next));
                assert(data@.take(next) + clip_clear(all.skip(next), unit_key@) =~= before.take(
                    p as int,
                ) + (unit + clip_clear(all.skip(next), unit_key@)));
            }
        } else {
            proof {
                let unit = rest.take(ALIGNED_UNIT_LEN as int);
                assert(before.take(next) =~= before.take(p as int) + unit);
                assert(data@.take(next) + clip_clear(all.skip(next), unit_key@) =~= before.take(
                    p as int,
                ) + (unit + clip_clear(all.skip(next), unit_key@)));
            }
        }
        p = p + ALIGNED_UNIT_LEN;
    }
    proof {
        assert(data@ =~= data@.take(p as int) + data@.skip(p as int));
    }
}

// ---------------------------------------------------------------------------
// Clips
// ---------------------------------------------------------------------------

/// Whether decrypting a clip with keys comes to `result` and `after`: an error
/// that leaves the clip as it is where no unit is encrypted or no key fits the
/// first encrypted one, and else the clip in the clear.
pub open spec fn clip_result(
    keys: Seq<Seq<u8>>,
    before: Seq<u8>,
    clip_id: Seq<char>,
    result: Result<(), AacsError>,
    after: Seq<u8>,
) -> bool {
    match first_marked(before, 0) {
        None => after == before && (result matches Err(AacsError::NotEncrypted { clip_id: id })
            && id@ == clip_id),
        Some(p) => match key_for(before.subrange(p, p + ALIGNED_UNIT_LEN), keys, 0) {
            None => after == before && (result matches Err(
                AacsError::DecryptionFailed { clip_id: id },
            ) && id@ == clip_id),
            Some(i) => result is Ok && after == clip_clear(before, keys[i]),
        },
    }
}

/// Where a clip is stored.
pub open spec fn m2ts_path_text(clip_id: Seq<char>) -> Seq<char> {
    "BDMV/STREAM/"@ + clip_id + ".m2ts"@
}

/// Returns where a clip is stored.
pub fn m2ts_path(clip_id: &str) -> (path: String)
    ensures
        path@ == m2ts_path_text(clip_id@),
{
    concat3("BDMV/STREAM/", clip_id, ".m2ts")
}

/// Tells the unit key file of a disc from the result of reading it.
pub fn read_unit_key_data(read: Result<Vec<u8>, ReaderError>) -> (result: Result<
    Vec<u8>,
    AacsError,
>)
    ensures
        result == match read {
            Ok(data) => Ok::<Vec<u8>, AacsError>(data),
            Err(ReaderError::NotFound { path }) => Err(AacsError::NoUnitKeyFile),
            Err(e) => Err(AacsError::ReadError(e)),
        },
{
    match read {
        Ok(data) => Ok(data),
        Err(ReaderError::NotFound { .. }) => Err(AacsError::NoUnitKeyFile),
        Err(e) => Err(AacsError::ReadError(e)),
    }
}

/// Computes the identity of a disc from its unit key file.
#[must_use]
pub fn disc_id_from_data(data: &[u8]) -> (id: DiscId)
    ensures
        id.id@ == hex_pairs(sha1(data@)),
        id.id@.len() == 40,
{
    let digest: [u8; 20] = digest_sha1(data);
    proof {
        lemma_hex_pairs_len(digest@);
    }
    DiscId { id: to_hex_pairs(&digest) }
}

/// Computes the identity of a disc from the result of reading its unit key
/// file.
pub fn disc_id(read: Result<Vec<u8>, ReaderError>) -> (result: Result<DiscId, AacsError>)
    ensures
        match read {
            Ok(data) => result matches Ok(id) && id.id@ == hex_pairs(sha1(data@)),
            Err(ReaderError::NotFound { path }) => result == Err::<DiscId, AacsError>(
                AacsError::NoUnitKeyFile,
            ),
            Err(e) => result == Err::<DiscId, AacsError>(AacsError::ReadError(e)),
        },
{
    match read_unit_key_data(read) {
        Ok(data) => Ok(disc_id_from_data(&data)),
        Err(e) => Err(e),
    }
}

/// Whether reading and unwrapping unit keys comes to `result`.
pub open spec fn keys_result(
    data: Seq<u8>,
    vuk: Seq<u8>,
    result: Result<AacsKeys, AacsError>,
) -> bool {
    match key_file_fault(data) {
        Some(text) => result matches Err(AacsError::InvalidUnitKeyFile { reason }) && reason@
            == text,
        None => result matches Ok(keys) && keys@ == unwrapped(vuk, keys_in(data)),
    }
}

impl View for AacsKeys {
    type V = Seq<Seq<u8>>;

    open spec fn view(&self) -> Seq<Seq<u8>> {
        keys_of(self.unit_keys@)
    }
}

impl AacsKeys {
    /// Takes unit keys that are already decrypted.
    pub fn from_keys(unit_keys: Vec<[u8; 16]>) -> (keys: AacsKeys)
        ensures
            keys@ == keys_of(unit_keys@),
    {
        AacsKeys { unit_keys }
    }

    /// Reads a unit key file and decrypts its keys under the volume unique
    /// key.
    pub fn from_unit_key_data(uk_data: &[u8], vuk: &[u8; 16]) -> (result: Result<
        AacsKeys,
        AacsError,
    >)
        ensures
            keys_result(uk_data@, vuk@, result),
    {
        match parse_unit_key_file(uk_data) {
            Ok(file) => Ok(AacsKeys { unit_keys: decrypt_unit_keys(&file, vuk) }),
            Err(e) => Err(e),
        }
    }

    /// Does the same with the result of reading the unit key file of a disc.
    pub fn from_disc(read: Result<Vec<u8>, ReaderError>, vuk: &[u8; 16]) -> (result: Result<
        AacsKeys,
        AacsError,
    >)
        ensures
            match read {
                Ok(data) => keys_result(data@, vuk@, result),
                Err(ReaderError::NotFound { path }) => result == Err::<AacsKeys, AacsError>(
                    AacsError::NoUnitKeyFile,
                ),
                Err(e) => result == Err::<AacsKeys, AacsError>(AacsError::ReadError(e)),
            },
    {
        match read_unit_key_data(read) {
            Ok(data) => AacsKeys::from_unit_key_data(&data, vuk),
            Err(e) => Err(e),
        }
    }

    /// Decrypts a clip in place. The clip identifier only serves the errors.
    pub fn decrypt_data(&self, data: &mut [u8], clip_id: &str) -> (result: Result<(), AacsError>)
        ensures
            clip_result(self@, old(data)@, clip_id@, result, final(data)@),
    {
        let first: usize = match find_first_encrypted_block(data) {
            Some(p) => p,
            None => {
                return Err(AacsError::NotEncrypted { clip_id: String::from_str(clip_id) });
            },
        };
        let length: usize = data.len();
        assert(first + ALIGNED_UNIT_LEN <= length);
        let unit: Vec<u8> = vstd::slice::slice_to_vec(
            vstd::slice::slice_subrange(data, first, first + ALIGNED_UNIT_LEN),
        );
        match find_unit_key(&unit, &self.unit_keys) {
            Some(i) => {
                decrypt_m2ts(data, &self.unit_keys[i]);
                Ok(())
            },
            None => Err(AacsError::DecryptionFailed { clip_id: String::from_str(clip_id) }),
        }
    }

    /// Decrypts a clip, given the result of reading it.
    pub fn decrypt_clip(&self, read: Result<Vec<u8>, ReaderError>, clip_id: &str) -> (result: Result<
        Vec<u8>,
        AacsError,
    >)
        ensures
            match read {
                Err(e) => result == Err::<Vec<u8>, AacsError>(AacsError::ReadError(e)),
                Ok(data) => match result {
                    Ok(clear) => clip_result(self@, data@, clip_id@, Ok(()), clear@),
                    Err(e) => clip_result(self@, data@, clip_id@, Err(e), data@),
                },
            },
    {
        match read {
            Err(e) => Err(AacsError::ReadError(e)),
            Ok(data) => {
                let mut clear: Vec<u8> = data;
                match self.decrypt_data(clear.as_mut_slice(), clip_id) {
                    Ok(()) => Ok(clear),
                    Err(e) => Err(e),
                }
            },
        }
    }
}

/// Decrypts a clip, given the results of reading the unit key file of the disc
/// and the clip.
pub fn decrypt_clip(
    keys_read: Result<Vec<u8>, ReaderError>,
    clip_read: Result<Vec<u8>, ReaderError>,
    vuk: &[u8; 16],
    clip_id: &str,
) -> (result: Result<Vec<u8>, AacsError>)
    ensures
        match keys_read {
            Err(ReaderError::NotFound { path }) => result == Err::<Vec<u8>, AacsError>(
                AacsError::NoUnitKeyFile,
            ),
            Err(e) => result == Err::<Vec<u8>, AacsError>(AacsError::ReadError(e)),
            Ok(file) => match key_file_fault(file@) {
                Some(text) => result matches Err(AacsError::InvalidUnitKeyFile { reason })
                    && reason@ == text,
                None => match clip_read {
                    Err(e) => result == Err::<Vec<u8>, AacsError>(AacsError::ReadError(e)),
                    Ok(data) => match result {
                        Ok(clear) => clip_result(
                            unwrapped(vuk@, keys_in(file@)),
                            data@,
                            clip_id@,
                            Ok(()),
                            clear@,
                        ),
                        Err(e) => clip_result(
                            unwrapped(vuk@, keys_in(file@)),
                            data@,
                            clip_id@,
                            Err(e),
                            data@,
                        ),
                    },
                },
            },
        },
{
    match AacsKeys::from_disc(keys_read, vuk) {
        Ok(keys) => keys.decrypt_clip(clip_read, clip_id),
        Err(e) => Err(e),
    }
}

proof fn lemma_hex_pairs_len(bytes: Seq<u8>)
    ensures
        hex_pairs(bytes).len() == 2 * bytes.len(),
    decreases bytes.len(),
{
    if bytes.len() > 0 {
        lemma_hex_pairs_len(bytes.drop_last());
    }
}

// ---------------------------------------------------------------------------
// Streams
// ---------------------------------------------------------------------------

/// Progress of decrypting a part of a file unit by unit. The caller reads the
/// unit at [`StreamProgress::next_unit`], hands it to
/// [`AacsKeys::decrypt_unit`], and writes it back where told to.
#[derive(Debug, Clone, Copy, PartialEq, Eq, Structural)]
pub struct StreamProgress {
    /// Where the part starts in the file.
    pub offset: u64,
    /// Length of the part.
    pub length: u64,
    /// How far the part is done.
    pub pos: u64,
    /// The key that fits the stream, once it is known.
    pub key_index: Option<usize>,
    /// What was done so far.
    pub stats: DecryptStats,
}

/// The label of a stream in errors.
pub open spec fn stream_label(position: u64) -> Seq<char> {
    "stream at offset 0x"@ + hex(position as nat)
}

impl StreamProgress {
    /// The counts are those of the units done, which lie within the part, and
    /// the key is one of `keys`.
    pub open spec fn wf(self, keys: nat) -> bool {
        &&& self.pos <= self.length
        &&& (self.stats.blocks_decrypted + self.stats.blocks_skipped) * ALIGNED_UNIT_LEN
            == self.pos
        &&& self.key_index matches Some(i) ==> i < keys
    }

    /// Whether a whole unit is left.
    pub open spec fn has_next(self) -> bool {
        self.pos + ALIGNED_UNIT_LEN <= self.length
    }

    /// Where the next unit starts in the file.
    pub open spec fn position(self) -> int {
        self.offset + self.pos
    }

    /// The progress before the first unit of a part of a file.
    pub open spec fn started(offset: u64, length: u64) -> StreamProgress {
        StreamProgress {
            offset,
            length,
            pos: 0,
            key_index: None,
            stats: DecryptStats { blocks_decrypted: 0, blocks_skipped: 0 },
        }
    }

    /// The progress after a unit that was not encrypted.
    pub open spec fn skipped(self) -> StreamProgress {
        StreamProgress {
            pos: (self.pos + ALIGNED_UNIT_LEN) as u64,
            stats: DecryptStats {
                blocks_skipped: (self.stats.blocks_skipped + 1) as u64,
                ..self.stats
            },
            ..self
        }
    }

    /// The progress after a unit that was decrypted with the `i`th key.
    pub open spec fn decrypted(self, i: int) -> StreamProgress {
        StreamProgress {
            pos: (self.pos + ALIGNED_UNIT_LEN) as u64,
            key_index: Some(i as usize),
            stats: DecryptStats {
                blocks_decrypted: (self.stats.blocks_decrypted + 1) as u64,
                ..self.stats
            },
            ..self
        }
    }

    /// Starts on a part of a file.
    pub fn new(offset: u64, length: u64) -> (p: StreamProgress)
        ensures
            p == StreamProgress::started(offset, length),
            forall|keys: nat| #[trigger] p.wf(keys),
    {
        StreamProgress {
            offset,
            length,
            pos: 0,
            key_index: None,
            stats: DecryptStats { blocks_decrypted: 0, blocks_skipped: 0 },
        }
    }

    /// Returns where the next unit starts in the file; `None` where no whole
    /// unit is left.
    pub fn next_unit(&self) -> (position: Option<u64>)
        requires
            self.pos <= self.length,
            self.has_next() ==> self.position() <= u64::MAX,
        ensures
            position == if self.has_next() {
                Some(self.position() as u64)
            } else {
                None
            },
    {
        if self.length - self.pos >= ALIGNED_UNIT_LEN as u64 {
            Some(self.offset + self.pos)
        } else {
            None
        }
    }
}

/// The key that serves an encrypted unit: the one that fits the stream, and
/// the first that fits the unit where that is not known yet.
pub open spec fn stream_key(known: Option<usize>, keys: Seq<Seq<u8>>, unit: Seq<u8>) -> Option<
    int,
> {
    match known {
        Some(i) => Some(i as int),
        None => key_for(unit, keys, 0),
    }
}

/// The progress after the next unit, and what the unit comes to; `None` where
/// it is encrypted and no key fits it.
pub open spec fn unit_step(p: StreamProgress, keys: Seq<Seq<u8>>, unit: Seq<u8>) -> Option<
    (StreamProgress, Seq<u8>),
> {
    if !marked(unit[0]) {
        Some((p.skipped(), unit))
    } else {
        match stream_key(p.key_index, keys, unit) {
            Some(i) => Some((p.decrypted(i), unit_clear(unit, keys[i]))),
            None => None,
        }
    }
}

/// The progress at the end of a stream, and what the stream comes to, where
/// its units are taken one after another and `d` is what is left of it; the
/// position of the unit where no key fits.
pub open spec fn stream_steps(p: StreamProgress, keys: Seq<Seq<u8>>, d: Seq<u8>) -> Result<
    (StreamProgress, Seq<u8>),
    int,
>
    decreases d.len(),
{
    if d.len() < ALIGNED_UNIT_LEN {
        Ok((p, d))
    } else {
        match unit_step(p, keys, d.take(ALIGNED_UNIT_LEN as int)) {
            Some((next, unit)) => match stream_steps(
                next,
                keys,
                d.skip(ALIGNED_UNIT_LEN as int),
            ) {
                Ok((end, rest)) => Ok((end, unit + rest)),
                Err(position) => Err(position),
            },
            None => Err(p.position()),
        }
    }
}

/// The number of encrypted units.
pub open spec fn marked_units(d: Seq<u8>) -> nat
    decreases d.len(),
{
    if d.len() < ALIGNED_UNIT_LEN {
        0
    } else if marked(d[0]) {
        1 + marked_units(d.skip(ALIGNED_UNIT_LEN as int))
    } else {
        marked_units(d.skip(ALIGNED_UNIT_LEN as int))
    }
}

/// What decrypting a stream unit by unit comes to, where the key that fits it
/// may be known; `None` where no key fits.
pub open spec fn stream_clear(d: Seq<u8>, keys: Seq<Seq<u8>>, known: Option<usize>) -> Option<
    Seq<u8>,
>
    decreases d.len(),
{
    let unit = d.take(ALIGNED_UNIT_LEN as int);
    let rest = d.skip(ALIGNED_UNIT_LEN as int);
    if d.len() < ALIGNED_UNIT_LEN {
        Some(d)
    } else if !marked(d[0]) {
        match stream_clear(rest, keys, known) {
            Some(clear) => Some(unit + clear),
            None => None,
        }
    } else {
        match stream_key(known, keys, unit) {
            Some(i) => match stream_clear(rest, keys, Some(i as usize)) {
                Some(clear) => Some(unit_clear(unit, keys[i]) + clear),
                None => None,
            },
            None => None,
        }
    }
}

impl AacsKeys {
    /// Takes the next unit of a stream and decrypts it in place if it is
    /// encrypted. Returns whether it was, and so has to be written back.
    pub fn decrypt_unit(&self, progress: &mut StreamProgress, block: &mut [u8]) -> (result: Result<
        bool,
        AacsError,
    >)
        requires
            old(progress).wf(self@.len()),
            old(progress).has_next(),
            old(progress).position() <= u64::MAX,
            old(block)@.len() == ALIGNED_UNIT_LEN,
        ensures
            final(progress).wf(self@.len()),
            match unit_step(*old(progress), self@, old(block)@) {
                Some((next, unit)) => {
                    &&& result == Ok::<bool, AacsError>(marked(old(block)@[0]))
                    &&& final(block)@ == unit
                    &&& *final(progress) == next
                },
                None => {
                    &&& result matches Err(AacsError::DecryptionFailed { clip_id })
                    &&& clip_id@ == stream_label(old(progress).position() as u64)
                    &&& final(block)@ == old(block)@
                    &&& *final(progress) == *old(progress)
                },
            },
    {
        if block[0] & 0xC0 == 0 {
            progress.stats.blocks_skipped = progress.stats.blocks_skipped + 1;
            progress.pos = progress.pos + ALIGNED_UNIT_LEN as u64;
            return Ok(false);
        }
        let index: usize = match progress.key_index {
            Some(i) => i,
            None => match find_unit_key(block, &self.unit_keys) {
                Some(i) => i,
                None => {
                    let mut clip_id: String = String::from_str("stream at offset 0x");
                    clip_id.append(to_hex(progress.offset + progress.pos).as_str());
                    return Err(AacsError::DecryptionFailed { clip_id });
                },
            },
        };
        progress.key_index = Some(index);
        decrypt_block(block, &self.unit_keys[index]);
        proof {
            assert(old(block)@.skip(ALIGNED_UNIT_LEN as int) =~= seq![]);
            assert(block@ =~= unit_clear(old(block)@, self@[index as int]));
        }
        progress.stats.blocks_decrypted = progress.stats.blocks_decrypted + 1;
        progress.pos = progress.pos + ALIGNED_UNIT_LEN as u64;
        Ok(true)
    }
}

// ---------------------------------------------------------------------------
// Laws
// ---------------------------------------------------------------------------

/// Decrypting a clip does not change its length.
pub proof fn law_clip_length_kept(d: Seq<u8>, key: Seq<u8>)
    ensures
        clip_clear(d, key).len() == d.len(),
    decreases d.len(),
{
    if d.len() >= ALIGNED_UNIT_LEN {
        lemma_unit_clear_len(d.take(ALIGNED_UNIT_LEN as int), key);
        law_clip_length_kept(d.skip(ALIGNED_UNIT_LEN as int), key);
    }
}

/// A clip without an encrypted unit stays as it is.
pub proof fn law_unencrypted_clip_kept(d: Seq<u8>, key: Seq<u8>)
    requires
        first_marked(d, 0) is None,
    ensures
        clip_clear(d, key) == d,
    decreases d.len(),
{
    if d.len() >= ALIGNED_UNIT_LEN {
        let rest = d.skip(ALIGNED_UNIT_LEN as int);
        assert(!marked(d[0]));
        lemma_first_marked_skip(d, ALIGNED_UNIT_LEN as int);
        law_unencrypted_clip_kept(rest, key);
        assert(d.take(ALIGNED_UNIT_LEN as int) + rest =~= d);
    }
}

proof fn lemma_first_marked_skip(d: Seq<u8>, p: int)
    requires
        0 <= p <= d.len(),
    ensures
        first_marked(d, p) is None <==> first_marked(d.skip(p), 0) is None,
{
    lemma_first_marked_shift(d, p, 0);
}

proof fn lemma_first_marked_shift(d: Seq<u8>, p: int, q: int)
    requires
        0 <= p <= d.len(),
        0 <= q,
    ensures
        first_marked(d, p + q) is None <==> first_marked(d.skip(p), q) is None,
    decreases d.len() - p - q,
{
    if p + q + ALIGNED_UNIT_LEN <= d.len() {
        assert(d.skip(p)[q] == d[p + q]);
        lemma_first_marked_shift(d, p, q + ALIGNED_UNIT_LEN);
    }
}

/// Once decrypted, a clip has no encrypted unit, so that decrypting it again
/// changes nothing.
pub proof fn law_decrypted_clip_is_clear(d: Seq<u8>, key: Seq<u8>, other: Seq<u8>)
    ensures
        first_marked(clip_clear(d, key), 0) is None,
        clip_clear(clip_clear(d, key), other) == clip_clear(d, key),
{
    lemma_no_mark_left(d, key);
    law_unencrypted_clip_kept(clip_clear(d, key), other);
}

proof fn lemma_no_mark_left(d: Seq<u8>, key: Seq<u8>)
    ensures
        first_marked(clip_clear(d, key), 0) is None,
    decreases d.len(),
{
    let c = clip_clear(d, key);
    law_clip_length_kept(d, key);
    if d.len() >= ALIGNED_UNIT_LEN {
        let n = ALIGNED_UNIT_LEN as int;
        let rest = clip_clear(d.skip(n), key);
        lemma_no_mark_left(d.skip(n), key);
        lemma_unit_clear_len(d.take(n), key);
        assert(c.skip(n) =~= rest);
        lemma_first_marked_skip(c, n);
        let first = d[0];
        assert((first & !0xC0u8) & 0xC0 == 0) by (bit_vector);
        assert(!marked(c[0]));
    }
}

/// What follows the last whole unit of a clip is never touched.
pub proof fn law_partial_unit_kept(d: Seq<u8>, key: Seq<u8>, i: int)
    requires
        d.len() - d.len() % (ALIGNED_UNIT_LEN as nat) <= i < d.len(),
    ensures
        clip_clear(d, key)[i] == d[i],
    decreases d.len(),
{
    if d.len() >= ALIGNED_UNIT_LEN {
        let n = ALIGNED_UNIT_LEN as int;
        lemma_unit_clear_len(d.take(n), key);
        law_clip_length_kept(d.skip(n), key);
        assert((d.len() - n) % n == d.len() % (n as nat)) by (nonlinear_arith)
            requires
                n == 6144,
                d.len() >= n,
        ;
        law_partial_unit_kept(d.skip(n), key, i - n);
    }
}

/// The first 16 bytes of a unit other than its first stay as they are, and so
/// do the low six bits of the first.
pub proof fn law_unit_head_kept(unit: Seq<u8>, key: Seq<u8>, i: int)
    requires
        unit.len() >= ALIGNED_UNIT_LEN,
        0 <= i < 16,
    ensures
        i > 0 ==> unit_clear(unit, key)[i] == unit[i],
        unit_clear(unit, key)[0] == unit[0] & 0x3F,
{
    let first = unit[0];
    assert(first & !0xC0u8 == first & 0x3F) by (bit_vector);
    lemma_unit_clear_len(unit, key);
}

/// Whether `cipher` is `plain` encrypted by cipher block chaining: each
/// encrypted block decrypts to the plain block combined with the encrypted
/// block before it.
pub open spec fn cbc_encrypts(
    key: Seq<u8>,
    previous: Seq<u8>,
    plain: Seq<u8>,
    cipher: Seq<u8>,
) -> bool
    decreases plain.len(),
{
    if plain.len() < 16 {
        plain.len() == 0 && cipher.len() == 0
    } else {
        &&& cipher.len() == plain.len()
        &&& aes128_decrypt(key, cipher.take(16)) == xor16(plain.take(16), previous)
        &&& cbc_encrypts(key, cipher.take(16), plain.skip(16), cipher.skip(16))
    }
}

/// Cipher block chaining undoes itself.
pub proof fn law_cbc_round_trip(
    key: Seq<u8>,
    previous: Seq<u8>,
    plain: Seq<u8>,
    cipher: Seq<u8>,
)
    requires
        previous.len() == 16,
        cbc_encrypts(key, previous, plain, cipher),
    ensures
        cbc_decrypted(key, previous, cipher) == plain,
    decreases plain.len(),
{
    if plain.len() >= 16 {
        let head = cipher.take(16);
        law_cbc_round_trip(key, head, plain.skip(16), cipher.skip(16));
        let opened = xor16(xor16(plain.take(16), previous), previous);
        assert forall|i: int| 0 <= i < 16 implies opened[i] == plain[i] by {
            let a = plain[i];
            let b = previous[i];
            assert((a ^ b) ^ b == a) by (bit_vector);
        }
        assert(opened =~= plain.take(16));
        assert(opened + plain.skip(16) =~= plain);
    } else {
        assert(cbc_decrypted(key, previous, cipher) =~= plain);
    }
}

/// A unit whose content was encrypted under the key that its head and the
/// unit key make has its content back after decryption.
pub proof fn law_unit_round_trip(unit: Seq<u8>, key: Seq<u8>, content: Seq<u8>)
    requires
        unit.len() >= ALIGNED_UNIT_LEN,
        cbc_encrypts(
            xor16(aes128_encrypt(key, unit.take(16)), unit.take(16)),
            iv(),
            content,
            unit.subrange(16, ALIGNED_UNIT_LEN as int),
        ),
    ensures
        unit_clear(unit, key).skip(16) == content,
{
    let head = unit.take(16);
    law_cbc_round_trip(
        xor16(aes128_encrypt(key, head), head),
        iv(),
        content,
        unit.subrange(16, ALIGNED_UNIT_LEN as int),
    );
    assert(unit_clear(unit, key).skip(16) =~= content);
}

proof fn lemma_stream_known(d: Seq<u8>, keys: Seq<Seq<u8>>, known: usize)
    ensures
        stream_clear(d, keys, Some(known)) == Some(clip_clear(d, keys[known as int])),
    decreases d.len(),
{
    if d.len() >= ALIGNED_UNIT_LEN {
        lemma_stream_known(d.skip(ALIGNED_UNIT_LEN as int), keys, known);
    }
}

proof fn lemma_first_marked_at(d: Seq<u8>, p: int, q: int)
    requires
        0 <= p <= d.len(),
        0 <= q,
    ensures
        match first_marked(d.skip(p), q) {
            Some(k) => first_marked(d, p + q) == Some(p + k) && q <= k && k + ALIGNED_UNIT_LEN
                <= d.len() - p,
            None => first_marked(d, p + q) is None,
        },
    decreases d.len() - p - q,
{
    if p + q + ALIGNED_UNIT_LEN <= d.len() {
        assert(d.skip(p)[q] == d[p + q]);
        lemma_first_marked_at(d, p, q + ALIGNED_UNIT_LEN);
    }
}

proof fn lemma_key_in_range(unit: Seq<u8>, keys: Seq<Seq<u8>>, i: int)
    requires
        0 <= i,
    ensures
        key_for(unit, keys, i) matches Some(k) ==> i <= k < keys.len(),
    decreases keys.len() - i,
{
    if i < keys.len() {
        lemma_key_in_range(unit, keys, i + 1);
    }
}

/// Decrypting a clip unit by unit comes to the same as decrypting it at once:
/// the same bytes where a key fits the first encrypted unit, a failure where
/// none does. A clip without encrypted units stays as it is.
pub proof fn law_stream_is_clip(d: Seq<u8>, keys: Seq<Seq<u8>>)
    requires
        keys.len() <= usize::MAX,
    ensures
        stream_clear(d, keys, None) == match first_marked(d, 0) {
            None => Some(d),
            Some(p) => match key_for(d.subrange(p, p + ALIGNED_UNIT_LEN), keys, 0) {
                None => None,
                Some(i) => Some(clip_clear(d, keys[i])),
            },
        },
    decreases d.len(),
{
    if d.len() >= ALIGNED_UNIT_LEN {
        let n = ALIGNED_UNIT_LEN as int;
        let unit = d.take(n);
        let rest = d.skip(n);
        if marked(d[0]) {
            assert(d.subrange(0, n) =~= unit);
            lemma_key_in_range(unit, keys, 0);
            if let Some(i) = key_for(unit, keys, 0) {
                lemma_stream_known(rest, keys, i as usize);
            }
        } else {
            law_stream_is_clip(rest, keys);
            lemma_first_marked_at(d, n, 0);
            match first_marked(rest, 0) {
                Some(k) => {
                    assert(rest.subrange(k, k + n) =~= d.subrange(n + k, n + k + n));
                },
                None => {
                    assert(unit + rest =~= d);
                },
            }
        }
    }
}

proof fn lemma_stream_steps(p: StreamProgress, keys: Seq<Seq<u8>>, d: Seq<u8>)
    requires
        keys.len() <= usize::MAX,
        p.wf(keys.len()),
        p.pos + d.len() == p.length,
    ensures
        match stream_steps(p, keys, d) {
            Ok((end, clear)) => {
                &&& stream_clear(d, keys, p.key_index) == Some(clear)
                &&& end.wf(keys.len())
                &&& !end.has_next()
                &&& end.stats.blocks_decrypted == p.stats.blocks_decrypted + marked_units(d)
                &&& end.stats.blocks_decrypted + end.stats.blocks_skipped
                    == p.stats.blocks_decrypted + p.stats.blocks_skipped + d.len() / (
                ALIGNED_UNIT_LEN as nat)
            },
            Err(position) => {
                &&& stream_clear(d, keys, p.key_index) is None
                &&& first_marked(d, 0) matches Some(q) && position == p.position() + q && key_for(
                    d.subrange(q, q + ALIGNED_UNIT_LEN),
                    keys,
                    0,
                ) is None
            },
        },
    decreases d.len(),
{
    if d.len() >= ALIGNED_UNIT_LEN {
        let n = ALIGNED_UNIT_LEN as int;
        let unit = d.take(n);
        let rest = d.skip(n);
        lemma_key_in_range(unit, keys, 0);
        assert(d.subrange(0, n) =~= unit);
        if let Some((next, _)) = unit_step(p, keys, unit) {
            lemma_stream_steps(next, keys, rest);
            if !marked(d[0]) {
                lemma_first_marked_at(d, n, 0);
                if let Some(k) = first_marked(rest, 0) {
                    assert(rest.subrange(k, k + n) =~= d.subrange(n + k, n + k + n));
                }
            } else {
                lemma_stream_known(rest, keys, next.key_index->0);
            }
        }
    }
}

/// Taking the units of a stream one after another decrypts the stream, and
/// counts its encrypted units and, with the others, all its whole units. It
/// fails at the first encrypted unit, if no key fits that one.
pub proof fn law_units_make_stream(d: Seq<u8>, keys: Seq<Seq<u8>>, offset: u64)
    requires
        keys.len() <= usize::MAX,
        d.len() <= u64::MAX,
    ensures
        match stream_steps(StreamProgress::started(offset, d.len() as u64), keys, d) {
            Ok((end, clear)) => {
                &&& stream_clear(d, keys, None) == Some(clear)
                &&& !end.has_next()
                &&& end.stats.blocks_decrypted == marked_units(d)
                &&& end.stats.blocks_decrypted + end.stats.blocks_skipped == d.len() / (
                ALIGNED_UNIT_LEN as nat)
            },
            Err(position) => {
                &&& stream_clear(d, keys, None) is None
                &&& first_marked(d, 0) == Some(position - offset)
            },
        },
        first_marked(d, 0) is None <==> marked_units(d) == 0,
{
    lemma_stream_steps(StreamProgress::started(offset, d.len() as u64), keys, d);
    lemma_marked_units(d);
}

proof fn lemma_marked_units(d: Seq<u8>)
    ensures
        first_marked(d, 0) is None <==> marked_units(d) == 0,
    decreases d.len(),
{
    if d.len() >= ALIGNED_UNIT_LEN {
        lemma_marked_units(d.skip(ALIGNED_UNIT_LEN as int));
        lemma_first_marked_skip(d, ALIGNED_UNIT_LEN as int);
    }
}

} // verus!
