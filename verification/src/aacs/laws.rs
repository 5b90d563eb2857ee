//! What unit keys, units and clips are made of, byte by byte.
use vstd::prelude::*;
use vstd::string::*;

use super::{
    clip_clear, clip_result, first_marked, iv, key_file_fault, key_for, keys_in, keys_result,
    lemma_unit_clear_len, m2ts_path_text, marked, stream_label, synced, unit_clear, unit_step,
    unwrapped, AacsError, AacsKeys, DecryptStats, StreamProgress,
};
use crate::crypto::{aes128_decrypt, aes128_encrypt, cbc_decrypted, lemma_cbc_len, xor16};
use crate::text::{decimal, hex};

verus! {

// ---------------------------------------------------------------------------
// Unit keys
// ---------------------------------------------------------------------------

/// Where the key table of a file starts: at the position in its first four
/// bytes.
pub open spec fn table_start(d: Seq<u8>) -> int {
    0x100_0000 * d[0] + 0x1_0000 * d[1] + 0x100 * d[2] + d[3]
}

/// The number of keys, in the first two bytes of the table.
pub open spec fn key_count(d: Seq<u8>) -> int {
    256 * d[table_start(d)] + d[table_start(d) + 1]
}

/// When a unit key file is in order: it has a table and at least one key, and
/// all keys fit. The keys are 48 bytes apart, the first 48 bytes into the
/// table.
pub proof fn law_key_files(d: Seq<u8>)
    ensures
        key_file_fault(d) is None <==> d.len() >= 4 && table_start(d) + 2 <= d.len() && key_count(d)
            > 0 && table_start(d) + 48 + 48 * key_count(d) <= d.len(),
        key_file_fault(d) is None ==> keys_in(d).len() == key_count(d),
{
}

/// The bytes of the keys: sixteen for each.
pub proof fn law_keys_lie(d: Seq<u8>, i: int, j: int)
    requires
        key_file_fault(d) is None,
        0 <= i < key_count(d),
        0 <= j < 16,
    ensures
        keys_in(d)[i].len() == 16,
        keys_in(d)[i][j] == d[table_start(d) + 48 + 48 * i + j],
{
    law_key_files(d);
    assert(i * 48 == 48 * i);
    assert(48 * i + 48 <= 48 * key_count(d)) by (nonlinear_arith)
        requires
            i < key_count(d),
    ;
}

/// What is said of a file that is not in order, in the order of what can be
/// wrong.
pub proof fn law_key_file_faults(d: Seq<u8>)
    ensures
        d.len() < 4 ==> key_file_fault(d) == Some("file too short for header"@),
        d.len() >= 4 && table_start(d) + 2 > d.len() ==> key_file_fault(d) == Some(
            "uk_pos ("@ + decimal(table_start(d) as nat) + ") points beyond file length ("@
                + decimal(d.len()) + ")"@,
        ),
        d.len() >= 4 && table_start(d) + 2 <= d.len() && key_count(d) == 0 ==> key_file_fault(d)
            == Some("no unit keys in file"@),
        d.len() >= 4 && table_start(d) + 2 <= d.len() && key_count(d) > 0 && table_start(d) + 48
            + 48 * key_count(d) > d.len() ==> key_file_fault(d) == Some(
            "key table requires "@ + decimal((table_start(d) + 48 + 48 * key_count(d)) as nat)
                + " bytes, file has "@ + decimal(d.len()),
        ),
{
    assert(key_count(d) * 48 == 48 * key_count(d));
}

/// Unit keys are decrypted one by one under the volume key.
pub proof fn law_keys_unwrapped(vuk: Seq<u8>, keys: Seq<Seq<u8>>, i: int)
    ensures
        unwrapped(vuk, keys).len() == keys.len(),
        0 <= i < keys.len() ==> unwrapped(vuk, keys)[i] == aes128_decrypt(vuk, keys[i]),
{
}

// ---------------------------------------------------------------------------
// Units
// ---------------------------------------------------------------------------

/// A unit is encrypted exactly if one of the top two bits of its first byte is
/// set, which is so from 64 on.
pub proof fn law_marks(first: u8)
    ensures
        marked(first) <==> first >= 64,
{
    assert(first & 0xC0u8 != 0u8 <==> first >= 64u8) by (bit_vector);
}

/// The initialisation vector, byte by byte.
pub proof fn law_iv()
    ensures
        iv().len() == 16,
        iv()[0] == 0x0B && iv()[1] == 0xA0 && iv()[2] == 0xF8 && iv()[3] == 0xDD,
        iv()[4] == 0xFE && iv()[5] == 0xA6 && iv()[6] == 0x1F && iv()[7] == 0xB3,
        iv()[8] == 0xD8 && iv()[9] == 0xDF && iv()[10] == 0x9F && iv()[11] == 0x56,
        iv()[12] == 0x6A && iv()[13] == 0x05 && iv()[14] == 0x0F && iv()[15] == 0x78,
{
}

/// Chained blocks: the byte `j` of block `k` is that of the decrypted block,
/// combined with byte `j` of the encrypted block before it, and with that of
/// the vector for the first block.
pub proof fn law_chained_blocks(key: Seq<u8>, previous: Seq<u8>, data: Seq<u8>, k: int, j: int)
    requires
        0 <= k,
        16 * k + 16 <= data.len(),
        0 <= j < 16,
    ensures
        cbc_decrypted(key, previous, data).len() >= 16 * k + 16,
        cbc_decrypted(key, previous, data)[16 * k + j] == aes128_decrypt(
            key,
            data.subrange(16 * k, 16 * k + 16),
        )[j] ^ (if k == 0 {
            previous[j]
        } else {
            data[16 * k - 16 + j]
        }),
    decreases k,
{
    let rest = data.skip(16);
    if k == 0 {
        assert(data.subrange(0, 16) =~= data.take(16));
    } else {
        law_chained_blocks(key, data.take(16), rest, k - 1, j);
        assert(rest.subrange(16 * (k - 1), 16 * (k - 1) + 16) =~= data.subrange(
            16 * k,
            16 * k + 16,
        ));
    }
}

/// A unit in the clear has 6144 bytes. The first loses its top two bits, and
/// the next fifteen stay. The rest is decrypted block by block: the key is the
/// first sixteen bytes, encrypted under the unit key and combined with
/// themselves.
pub proof fn law_clear_units(unit: Seq<u8>, key: Seq<u8>, k: int, j: int)
    requires
        unit.len() == 6144,
        0 <= k < 383,
        0 <= j < 16,
    ensures
        ({
            let head = unit.subrange(0, 16);
            let content = xor16(aes128_encrypt(key, head), head);
            let clear = unit_clear(unit, key);
            &&& clear.len() == 6144
            &&& clear[0] == unit[0] % 64
            &&& j > 0 ==> clear[j] == unit[j]
            &&& content.len() == 16
            &&& content[j] == aes128_encrypt(key, head)[j] ^ unit[j]
            &&& clear[16 + 16 * k + j] == aes128_decrypt(
                content,
                unit.subrange(16 + 16 * k, 32 + 16 * k),
            )[j] ^ (if k == 0 {
                iv()[j]
            } else {
                unit[16 * k + j]
            })
        }),
{
    let head = unit.take(16);
    assert(head =~= unit.subrange(0, 16));
    let content = xor16(aes128_encrypt(key, head), head);
    let body = unit.subrange(16, 6144);
    lemma_unit_clear_len(unit, key);
    lemma_cbc_len(content, iv(), body);
    law_chained_blocks(content, iv(), body, k, j);
    assert(body.subrange(16 * k, 16 * k + 16) =~= unit.subrange(16 + 16 * k, 32 + 16 * k));
    let first = unit[0];
    assert(first & !0xC0u8 == first % 64u8) by (bit_vector);
}

/// A unit has its sync bytes if bytes 4, 196, 388 and 580 are 0x47.
pub proof fn law_sync_bytes(unit: Seq<u8>)
    ensures
        synced(unit) <==> unit.len() > 580 && unit[4] == 0x47 && unit[196] == 0x47 && unit[388]
            == 0x47 && unit[580] == 0x47,
{
    if synced(unit) {
        assert((0int * 192) + 4 < unit.len() && unit[0int * 192 + 4] == 0x47);
        assert((1int * 192) + 4 < unit.len() && unit[1int * 192 + 4] == 0x47);
        assert((2int * 192) + 4 < unit.len() && unit[2int * 192 + 4] == 0x47);
        assert((3int * 192) + 4 < unit.len() && unit[3int * 192 + 4] == 0x47);
    }
}

/// The key of a unit is the first, from `i` on, under which it has its sync
/// bytes in the clear.
pub proof fn law_first_key_that_fits(unit: Seq<u8>, keys: Seq<Seq<u8>>, i: int)
    requires
        0 <= i,
    ensures
        match key_for(unit, keys, i) {
            Some(k) => i <= k < keys.len() && synced(unit_clear(unit, keys[k])) && forall|j: int|
                i <= j < k ==> !synced(unit_clear(unit, #[trigger] keys[j])),
            None => forall|j: int|
                i <= j < keys.len() ==> !synced(unit_clear(unit, #[trigger] keys[j])),
        },
    decreases keys.len() - i,
{
    if i < keys.len() && !synced(unit_clear(unit, keys[i])) {
        law_first_key_that_fits(unit, keys, i + 1);
    }
}

// ---------------------------------------------------------------------------
// Clips
// ---------------------------------------------------------------------------

/// The first encrypted unit: units are 6144 bytes apart and have to be whole.
pub proof fn law_first_encrypted_unit(d: Seq<u8>, k: int) -> (found: int)
    requires
        0 <= k,
    ensures
        match first_marked(d, 6144 * k) {
            Some(p) => {
                &&& p == 6144 * found
                &&& k <= found
                &&& 6144 * found + 6144 <= d.len()
                &&& d[6144 * found] >= 64
                &&& forall|j: int| k <= j < found ==> d[#[trigger] (6144 * j)] < 64
            },
            None => forall|j: int|
                k <= j && #[trigger] (6144 * j) + 6144 <= d.len() ==> d[6144 * j] < 64,
        },
    decreases d.len() - 6144 * k,
{
    if 6144 * k + 6144 <= d.len() {
        law_marks(d[6144 * k]);
        if marked(d[6144 * k]) {
            k
        } else {
            let found = law_first_encrypted_unit(d, k + 1);
            assert(first_marked(d, 6144 * k) == first_marked(d, 6144 * (k + 1)));
            found
        }
    } else {
        k
    }
}

/// A clip in the clear: every whole unit that is encrypted is decrypted, every
/// other stays, and so does what follows the last whole unit.
pub proof fn law_clear_clips(d: Seq<u8>, key: Seq<u8>, k: int)
    requires
        0 <= k,
    ensures
        clip_clear(d, key).len() == d.len(),
        6144 * k + 6144 <= d.len() && d[6144 * k] >= 64 ==> clip_clear(d, key).subrange(
            6144 * k,
            6144 * k + 6144,
        ) == unit_clear(d.subrange(6144 * k, 6144 * k + 6144), key),
        6144 * k + 6144 <= d.len() && d[6144 * k] < 64 ==> clip_clear(d, key).subrange(
            6144 * k,
            6144 * k + 6144,
        ) == d.subrange(6144 * k, 6144 * k + 6144),
        6144 * k <= d.len() < 6144 * k + 6144 ==> clip_clear(d, key).subrange(
            6144 * k,
            d.len() as int,
        ) == d.subrange(6144 * k, d.len() as int),
    decreases d.len(),
{
    if d.len() >= 6144 {
        let unit = d.take(6144);
        let rest = d.skip(6144);
        let clear = clip_clear(d, key);
        let after = clip_clear(rest, key);
        lemma_unit_clear_len(unit, key);
        law_marks(d[0]);
        law_clear_clips(rest, key, if k > 0 {
            k - 1
        } else {
            0
        });
        assert(clear.skip(6144) =~= after);
        if k == 0 {
            assert(d.subrange(0, 6144) =~= unit);
            assert(clear.subrange(0, 6144) =~= if marked(d[0]) {
                unit_clear(unit, key)
            } else {
                unit
            });
        } else {
            if 6144 * k + 6144 <= d.len() {
                assert(clear.subrange(6144 * k, 6144 * k + 6144) =~= after.subrange(
                    6144 * (k - 1),
                    6144 * (k - 1) + 6144,
                ));
                assert(d.subrange(6144 * k, 6144 * k + 6144) =~= rest.subrange(
                    6144 * (k - 1),
                    6144 * (k - 1) + 6144,
                ));
                assert(d[6144 * k] == rest[6144 * (k - 1)]);
            } else if 6144 * k <= d.len() {
                assert(clear.subrange(6144 * k, d.len() as int) =~= after.subrange(
                    6144 * (k - 1),
                    rest.len() as int,
                ));
                assert(d.subrange(6144 * k, d.len() as int) =~= rest.subrange(
                    6144 * (k - 1),
                    rest.len() as int,
                ));
            }
        }
    }
}

/// A clip is stored under its identifier.
pub proof fn law_clip_paths(clip_id: Seq<char>)
    ensures
        m2ts_path_text(clip_id) == "BDMV/STREAM/"@ + clip_id + ".m2ts"@,
{
}

// ---------------------------------------------------------------------------
// Streams
// ---------------------------------------------------------------------------

/// A unit of a stream moves the progress on by 6144 bytes and is counted once.
/// One that is not encrypted stays as it is, and the key stays too. One that
/// is encrypted is decrypted under the known key, else under the first that
/// fits, which is known from there on.
pub proof fn law_units_of_streams(p: StreamProgress, keys: Seq<Seq<u8>>, unit: Seq<u8>)
    requires
        p.pos + 6144 <= u64::MAX,
        p.stats.blocks_decrypted < u64::MAX,
        p.stats.blocks_skipped < u64::MAX,
        keys.len() <= usize::MAX,
    ensures
        ({
            let step = unit_step(p, keys, unit);
            let (next, clear) = step->0;
            let i: int = match p.key_index {
                Some(i) => i as int,
                None => key_for(unit, keys, 0)->0,
            };
            let fits = p.key_index is Some || key_for(unit, keys, 0) is Some;
            &&& step is Some ==> next.offset == p.offset && next.length == p.length && next.pos
                == p.pos + 6144
            &&& unit[0] < 64 ==> {
                &&& step is Some
                &&& clear == unit
                &&& next.key_index == p.key_index
                &&& next.stats.blocks_skipped == p.stats.blocks_skipped + 1
                &&& next.stats.blocks_decrypted == p.stats.blocks_decrypted
            }
            &&& unit[0] >= 64 && fits ==> {
                &&& step is Some
                &&& clear == unit_clear(unit, keys[i])
                &&& next.key_index == Some(i as usize)
                &&& next.stats.blocks_skipped == p.stats.blocks_skipped
                &&& next.stats.blocks_decrypted == p.stats.blocks_decrypted + 1
            }
            &&& unit[0] >= 64 && !fits ==> step is None
        }),
{
    law_marks(unit[0]);
}

/// A stream starts at its first byte with no key known and nothing counted. It
/// goes on as long as a whole unit is left; that unit lies behind the part that
/// is done.
pub proof fn law_streams_start(p: StreamProgress, offset: u64, length: u64)
    ensures
        StreamProgress::started(offset, length).offset == offset,
        StreamProgress::started(offset, length).length == length,
        StreamProgress::started(offset, length).pos == 0,
        StreamProgress::started(offset, length).key_index is None,
        StreamProgress::started(offset, length).stats == (DecryptStats {
            blocks_decrypted: 0,
            blocks_skipped: 0,
        }),
        p.has_next() <==> p.length - p.pos >= 6144,
        p.position() == p.offset + p.pos,
        stream_label(offset) == "stream at offset 0x"@ + hex(offset as nat),
{
}

// ---------------------------------------------------------------------------
// Results
// ---------------------------------------------------------------------------

/// What decrypting a clip comes to. If no unit is encrypted, or no key fits the
/// first that is, the clip stays as it is, and the error names it. Else the
/// whole clip is decrypted under the first key that fits that unit.
pub proof fn law_decrypting_clips(
    keys: Seq<Seq<u8>>,
    before: Seq<u8>,
    clip_id: Seq<char>,
    result: Result<(), AacsError>,
    after: Seq<u8>,
)
    requires
        clip_result(keys, before, clip_id, result, after),
    ensures
        ({
            let found = first_marked(before, 0);
            let p = found->0;
            let key = key_for(before.subrange(p, p + 6144), keys, 0);
            &&& result is Ok <==> found is Some && key is Some
            &&& result is Err ==> after == before
            &&& result is Ok ==> after == clip_clear(before, keys[key->0])
            &&& found is None ==> (result matches Err(AacsError::NotEncrypted { clip_id: id })
                && id@ == clip_id)
            &&& found is Some && key is None ==> (result matches Err(
                AacsError::DecryptionFailed { clip_id: id },
            ) && id@ == clip_id)
        }),
{
}

/// What reading unit keys comes to: the decrypted keys of a file that is in
/// order, and else an error that says what is wrong.
pub proof fn law_reading_unit_keys(
    data: Seq<u8>,
    vuk: Seq<u8>,
    result: Result<AacsKeys, AacsError>,
)
    requires
        keys_result(data, vuk, result),
    ensures
        result is Ok <==> key_file_fault(data) is None,
        result matches Ok(keys) ==> keys.unit_keys@.len() == keys_in(data).len() && forall|i: int|
            0 <= i < keys.unit_keys@.len() ==> (#[trigger] keys.unit_keys@[i])@ == aes128_decrypt(
                vuk,
                keys_in(data)[i],
            ),
        result is Err ==> (result matches Err(AacsError::InvalidUnitKeyFile { reason }) && reason@
            == key_file_fault(data)->0),
{
    if let Ok(keys) = result {
        let clear = unwrapped(vuk, keys_in(data));
        assert(keys@.len() == keys.unit_keys@.len());
        assert(clear.len() == keys_in(data).len());
        assert forall|i: int| 0 <= i < keys.unit_keys@.len() implies (
        #[trigger] keys.unit_keys@[i])@ == aes128_decrypt(vuk, keys_in(data)[i]) by {
            assert(keys@[i] == keys.unit_keys@[i]@);
            assert(clear[i] == aes128_decrypt(vuk, keys_in(data)[i]));
        }
    }
}

/// What the errors say.
pub proof fn law_messages(e: AacsError)
    ensures
        e is NoUnitKeyFile ==> e.text()
            == "AACS/Unit_Key_RO.inf not found \u{2014} disc may not be encrypted"@,
        e matches AacsError::InvalidUnitKeyFile { reason } ==> e.text()
            == "invalid Unit_Key_RO.inf: "@ + reason@,
        e matches AacsError::NotEncrypted { clip_id } ==> e.text() == "clip "@ + clip_id@
            + " has no encrypted aligned units \u{2014} use read_file directly"@,
        e matches AacsError::DecryptionFailed { clip_id } ==> e.text()
            == "decryption failed for clip "@ + clip_id@
            + " \u{2014} no unit key produced valid TS sync"@,
        e matches AacsError::ReadError(why) ==> e.text() == "failed to read m2ts: "@ + why.text(),
        e matches AacsError::Io { message } ==> e.text() == "I/O error: "@ + message@,
{
}

} // verus!
