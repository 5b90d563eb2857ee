//! What the lines of a key database mean.
use vstd::prelude::*;
use vstd::string::*;

use super::{
    after_marker, ascii_lower, begins, entry_result, hex_value, is_entry, is_other, is_white,
    key_bytes, key_on, lookup_result, marker, pair_value, trimmed, trimmed_end, trimmed_start,
    without_prefix, KeydbError,
};

verus! {

// ---------------------------------------------------------------------------
// White space
// ---------------------------------------------------------------------------

/// Tab, line feed, form feed, carriage return, space and no-break space are
/// white space; what can be seen in ASCII is not.
pub proof fn law_white_space(c: char)
    ensures
        is_white('\t'),
        is_white('\n'),
        is_white('\r'),
        is_white(' '),
        is_white('\u{0B}'),
        is_white('\u{0C}'),
        is_white('\u{85}'),
        is_white('\u{A0}'),
        is_white('\u{1680}'),
        is_white('\u{2028}'),
        is_white('\u{2029}'),
        is_white('\u{202F}'),
        is_white('\u{205F}'),
        is_white('\u{3000}'),
        '\u{2000}' <= c <= '\u{200A}' ==> is_white(c),
        '!' <= c <= '~' ==> !is_white(c),
        c < '\t' ==> !is_white(c),
        '\u{0E}' <= c < ' ' ==> !is_white(c),
        c > '\u{3000}' ==> !is_white(c),
{
}

proof fn lemma_trimmed_start(text: Seq<char>) -> (n: int)
    ensures
        0 <= n <= text.len(),
        trimmed_start(text) == text.subrange(n, text.len() as int),
        forall|i: int| 0 <= i < n ==> is_white(#[trigger] text[i]),
        n < text.len() ==> !is_white(text[n]),
    decreases text.len(),
{
    if text.len() > 0 && is_white(text[0]) {
        let rest = text.skip(1);
        let n = lemma_trimmed_start(rest);
        assert forall|i: int| 0 <= i < n + 1 implies is_white(#[trigger] text[i]) by {
            if i > 0 {
                assert(is_white(rest[i - 1]));
            }
        }
        assert(text.subrange(n + 1, text.len() as int) =~= rest.subrange(n, rest.len() as int));
        n + 1
    } else {
        assert(text.subrange(0, text.len() as int) =~= text);
        0
    }
}

proof fn lemma_trimmed_end(text: Seq<char>) -> (n: int)
    ensures
        0 <= n <= text.len(),
        trimmed_end(text) == text.subrange(0, n),
        forall|i: int| n <= i < text.len() ==> is_white(#[trigger] text[i]),
        n > 0 ==> !is_white(text[n - 1]),
    decreases text.len(),
{
    if text.len() > 0 && is_white(text.last()) {
        let rest = text.drop_last();
        let n = lemma_trimmed_end(rest);
        assert forall|i: int| n <= i < text.len() implies is_white(#[trigger] text[i]) by {
            if i < rest.len() {
                assert(is_white(rest[i]));
            }
        }
        assert(text.subrange(0, n) =~= rest.subrange(0, n));
        n
    } else {
        assert(text.subrange(0, text.len() as int) =~= text);
        text.len() as int
    }
}

/// Trimming takes away white space at both ends, all of it and nothing else.
pub proof fn law_trimming(text: Seq<char>) -> (part: (int, int))
    ensures
        0 <= part.0 <= part.1 <= text.len(),
        trimmed(text) == text.subrange(part.0, part.1),
        forall|i: int| 0 <= i < part.0 ==> is_white(#[trigger] text[i]),
        forall|i: int| part.1 <= i < text.len() ==> is_white(#[trigger] text[i]),
        part.0 < part.1 ==> !is_white(text[part.0]) && !is_white(text[part.1 - 1]),
{
    let a = lemma_trimmed_start(text);
    let rest = text.subrange(a, text.len() as int);
    let n = lemma_trimmed_end(rest);
    assert(rest.subrange(0, n) =~= text.subrange(a, a + n));
    assert forall|i: int| a + n <= i < text.len() implies is_white(#[trigger] text[i]) by {
        assert(is_white(rest[i - a]));
    }
    if n > 0 {
        assert(!is_white(rest[n - 1]));
    }
    (a, a + n)
}

// ---------------------------------------------------------------------------
// Lines
// ---------------------------------------------------------------------------

/// Case does not count for the letters A to Z, and counts for everything else.
pub proof fn law_letter_case(a: char, b: char)
    ensures
        ascii_lower(a) == ascii_lower(b) <==> a == b || ('A' <= a <= 'Z' && b as u32 == a as u32
            + 32) || ('A' <= b <= 'Z' && a as u32 == b as u32 + 32),
{
}

/// A text begins with another exactly if it is at least as long and its first
/// characters are the same up to case.
pub proof fn law_beginnings(text: Seq<char>, start: Seq<char>)
    ensures
        begins(text, start) <==> text.len() >= start.len() && forall|i: int|
            0 <= i < start.len() ==> ascii_lower(#[trigger] text[i]) == ascii_lower(start[i]),
{
}

/// Which lines are no entry of a disc: empty ones, those that start with a
/// semicolon, and those that start with a bar, a space, `DK`, `PK` or `HC`, a
/// space and a bar.
pub proof fn law_other_lines(line: Seq<char>)
    ensures
        is_other(line) <==> {
            ||| line.len() == 0
            ||| line[0] == ';'
            ||| line.len() >= 6 && line[0] == '|' && line[1] == ' ' && ((line[2] == 'D' && line[3]
                == 'K') || (line[2] == 'P' && line[3] == 'K') || (line[2] == 'H' && line[3]
                == 'C')) && line[4] == ' ' && line[5] == '|'
        },
{
    if line.len() >= 6 {
        let head = line.take(6);
        assert(head[0] == line[0] && head[1] == line[1] && head[2] == line[2] && head[3] == line[3]
            && head[4] == line[4] && head[5] == line[5]);
        if line[0] == '|' && line[1] == ' ' && line[4] == ' ' && line[5] == '|' {
            if line[2] == 'D' && line[3] == 'K' {
                assert(head =~= seq!['|', ' ', 'D', 'K', ' ', '|']);
            }
            if line[2] == 'P' && line[3] == 'K' {
                assert(head =~= seq!['|', ' ', 'P', 'K', ' ', '|']);
            }
            if line[2] == 'H' && line[3] == 'C' {
                assert(head =~= seq!['|', ' ', 'H', 'C', ' ', '|']);
            }
        }
    }
}

/// A line is the entry of a disc if, without white space around it, it is no
/// other line and begins with the identity.
pub proof fn law_entries(line: Seq<char>, disc_id: Seq<char>)
    ensures
        is_entry(line, disc_id) <==> !is_other(trimmed(line)) && begins(trimmed(line), disc_id),
{
}

// ---------------------------------------------------------------------------
// Keys
// ---------------------------------------------------------------------------

/// The values of hexadecimal digits in either case.
pub proof fn law_hex_digits(c: char)
    ensures
        '0' <= c <= '9' ==> hex_value(c) == Some((c as u32 - '0' as u32) as u8),
        'a' <= c <= 'f' ==> hex_value(c) == Some((c as u32 - 'a' as u32 + 10) as u8),
        'A' <= c <= 'F' ==> hex_value(c) == Some((c as u32 - 'A' as u32 + 10) as u8),
        hex_value(c) is Some ==> '0' <= c <= '9' || 'a' <= c <= 'f' || 'A' <= c <= 'F',
{
}

/// A key has thirty-two digits. Two make a byte, the first of which counts
/// sixteenfold.
pub proof fn law_key_digits(text: Seq<char>)
    ensures
        key_bytes(text) is Some <==> text.len() == 32 && forall|i: int|
            0 <= i < 32 ==> hex_value(#[trigger] text[i]) is Some,
        key_bytes(text) matches Some(key) ==> key.len() == 16 && forall|i: int|
            0 <= i < 16 ==> #[trigger] key[i] == 16 * hex_value(text[2 * i])->0 + hex_value(
                text[2 * i + 1],
            )->0,
{
    if key_bytes(text) is Some {
        assert forall|i: int| 0 <= i < 32 implies hex_value(#[trigger] text[i]) is Some by {
            let k = i / 2;
            assert(pair_value(text[2 * k], text[2 * k + 1]) is Some);
            assert(i == 2 * k || i == 2 * k + 1);
        }
    }
    if text.len() == 32 && forall|i: int|
        0 <= i < 32 ==> hex_value(#[trigger] text[i]) is Some {
        assert forall|i: int| 0 <= i < 16 implies pair_value(
            #[trigger] text[2 * i],
            text[2 * i + 1],
        ) is Some by {
            assert(hex_value(text[2 * i]) is Some);
            assert(hex_value(text[2 * i + 1]) is Some);
        }
    }
    if let Some(key) = key_bytes(text) {
        assert forall|i: int| 0 <= i < 16 implies #[trigger] key[i] == 16 * hex_value(
            text[2 * i],
        )->0 + hex_value(text[2 * i + 1])->0 by {
            assert(hex_value(text[2 * i]) is Some);
            assert(hex_value(text[2 * i + 1]) is Some);
            law_hex_digits(text[2 * i]);
            law_hex_digits(text[2 * i + 1]);
            assert(key[i] == pair_value(text[2 * i], text[2 * i + 1])->0);
        }
    }
}

/// Whether the mark of a key stands at a place: a bar, a space, `V`, a space
/// and a bar.
pub open spec fn marked_at(text: Seq<char>, k: int) -> bool {
    &&& k + 5 <= text.len()
    &&& text[k] == '|'
    &&& text[k + 1] == ' '
    &&& text[k + 2] == 'V'
    &&& text[k + 3] == ' '
    &&& text[k + 4] == '|'
}

/// What follows a mark is what stands behind the first one.
pub proof fn law_first_mark_counts(text: Seq<char>, i: int)
    requires
        0 <= i,
    ensures
        match after_marker(text, i) {
            Some(rest) => exists|k: int|
                i <= k && #[trigger] marked_at(text, k) && rest == text.subrange(
                    k + 5,
                    text.len() as int,
                ) && forall|j: int| i <= j < k ==> !#[trigger] marked_at(text, j),
            None => forall|j: int| i <= j ==> !#[trigger] marked_at(text, j),
        },
    decreases text.len() - i,
{
    if i + 5 <= text.len() {
        let here = text.subrange(i, i + 5);
        assert(here[0] == text[i] && here[1] == text[i + 1] && here[2] == text[i + 2] && here[3]
            == text[i + 3] && here[4] == text[i + 4]);
        if marked_at(text, i) {
            assert(here =~= marker());
        }
        assert(here == marker() <==> marked_at(text, i));
        if here == marker() {
            assert(text.skip(i + 5) =~= text.subrange(i + 5, text.len() as int));
        } else {
            law_first_mark_counts(text, i + 1);
        }
    }
}

/// The key on a line: behind the first mark and white space, and behind `0x`
/// or `0X` if that is there, the next thirty-two characters write it.
pub proof fn law_keys_on_lines(line: Seq<char>, rest: Seq<char>, digits: Seq<char>)
    requires
        after_marker(line, 0) == Some(rest),
        ({
            let text = trimmed_start(rest);
            let prefixed = text.len() >= 2 && text[0] == '0' && (text[1] == 'x' || text[1] == 'X');
            digits == if prefixed {
                text.subrange(2, text.len() as int)
            } else {
                text
            }
        }),
    ensures
        digits.len() < 32 ==> key_on(line) is None,
        digits.len() >= 32 ==> key_on(line) == key_bytes(digits.subrange(0, 32)),
{
    let text = trimmed_start(rest);
    if text.len() >= 2 {
        assert(text.skip(2) =~= text.subrange(2, text.len() as int));
    }
    assert(without_prefix(text) == digits);
    if digits.len() >= 32 {
        assert(digits.take(32) =~= digits.subrange(0, 32));
    }
}

/// A line without a mark has no key.
pub proof fn law_no_mark_no_key(line: Seq<char>)
    requires
        forall|k: int| 0 <= k ==> !#[trigger] marked_at(line, k),
    ensures
        key_on(line) is None,
{
    law_first_mark_counts(line, 0);
}

/// The first entry of a disc decides. Its key is found; if it has none, that
/// is an error that names the disc. Where there is no entry there is no key.
pub proof fn law_first_entry_decides(
    lines: Seq<String>,
    disc_id: Seq<char>,
    i: int,
    result: Result<Option<[u8; 16]>, KeydbError>,
)
    requires
        0 <= i,
        lookup_result(lines, disc_id, i, result),
    ensures
        (forall|j: int| i <= j < lines.len() ==> !is_entry((#[trigger] lines[j])@, disc_id))
            ==> result == Ok::<Option<[u8; 16]>, KeydbError>(None),
        forall|k: int|
            i <= k < lines.len() && is_entry((#[trigger] lines[k])@, disc_id) && (forall|j: int|
                i <= j < k ==> !is_entry((#[trigger] lines[j])@, disc_id)) ==> match key_on(
                trimmed(lines[k]@),
            ) {
                Some(key) => result matches Ok(Some(vuk)) && vuk@ == key,
                None => result matches Err(KeydbError::MalformedEntry { disc_id: id }) && id@
                    == disc_id,
            },
    decreases lines.len() - i,
{
    if i < lines.len() && !is_entry(lines[i]@, disc_id) {
        law_first_entry_decides(lines, disc_id, i + 1, result);
    }
    assert forall|k: int|
        i <= k < lines.len() && is_entry((#[trigger] lines[k])@, disc_id) && (forall|j: int|
            i <= j < k ==> !is_entry((#[trigger] lines[j])@, disc_id)) implies match key_on(
        trimmed(lines[k]@),
    ) {
        Some(key) => result matches Ok(Some(vuk)) && vuk@ == key,
        None => result matches Err(KeydbError::MalformedEntry { disc_id: id }) && id@ == disc_id,
    } by {
        if k > i {
            assert(!is_entry(lines[i]@, disc_id));
        } else {
            assert(entry_result(lines[i]@, disc_id, result));
        }
    }
}

/// What the errors say.
pub proof fn law_messages(e: KeydbError)
    ensures
        e matches KeydbError::NotFound { path } ==> e.text() == "KEYDB.cfg not found at "@ + path@,
        e matches KeydbError::ReadError { path, message } ==> e.text()
            == "failed to read KEYDB.cfg at "@ + path@ + ": "@ + message@,
        e matches KeydbError::MalformedEntry { disc_id } ==> e.text() == "disc ID "@ + disc_id@
            + " found in KEYDB.cfg but VUK field is missing or malformed"@,
{
}

} // verus!
