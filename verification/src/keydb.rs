//! Key databases: text files that map disc identities to volume unique keys.
//!
//! A line starts with a disc identity and holds fields separated by bars. The
//! key follows the field name `| V |`.
use vstd::prelude::*;
use vstd::string::*;

use crate::aacs::DiscId;
use crate::text::concat3;

pub mod laws;

verus! {

/// Why no key could be looked up.
#[derive(Debug, Clone, PartialEq, Eq)]
pub enum KeydbError {
    /// There is no database.
    NotFound {
        /// The path that was asked for.
        path: String,
    },
    /// The database could not be read.
    ReadError {
        /// The path that was read.
        path: String,
        /// What went wrong.
        message: String,
    },
    /// The entry of the disc holds no valid key.
    MalformedEntry {
        /// Identity of the disc.
        disc_id: String,
    },
}

impl KeydbError {
    /// The message of the error.
    pub open spec fn text(self) -> Seq<char> {
        match self {
            KeydbError::NotFound { path } => "KEYDB.cfg not found at "@ + path@,
            KeydbError::ReadError { path, message } => "failed to read KEYDB.cfg at "@ + path@
                + ": "@ + message@,
            KeydbError::MalformedEntry { disc_id } => "disc ID "@ + disc_id@
                + " found in KEYDB.cfg but VUK field is missing or malformed"@,
        }
    }

    /// Describes the error.
    pub fn message(&self) -> (text: String)
        ensures
            text@ == self.text(),
    {
        match self {
            KeydbError::NotFound { path } => {
                let mut text: String = String::from_str("KEYDB.cfg not found at ");
                text.append(path.as_str());
                text
            },
            KeydbError::ReadError { path, message } => {
                let mut text: String = concat3("failed to read KEYDB.cfg at ", path.as_str(), ": ");
                text.append(message.as_str());
                text
            },
            KeydbError::MalformedEntry { disc_id } => concat3(
                "disc ID ",
                disc_id.as_str(),
                " found in KEYDB.cfg but VUK field is missing or malformed",
            ),
        }
    }
}

// ---------------------------------------------------------------------------
// Characters
// ---------------------------------------------------------------------------

/// Whether a character is white space.
pub open spec fn is_white(c: char) -> bool {
    let n = c as u32;
    ||| 0x09 <= n <= 0x0D
    ||| n == 0x20
    ||| n == 0x85
    ||| n == 0xA0
    ||| n == 0x1680
    ||| 0x2000 <= n <= 0x200A
    ||| n == 0x2028
    ||| n == 0x2029
    ||| n == 0x202F
    ||| n == 0x205F
    ||| n == 0x3000
}

/// `text` without leading white space.
pub open spec fn trimmed_start(text: Seq<char>) -> Seq<char>
    decreases text.len(),
{
    if text.len() > 0 && is_white(text[0]) {
        trimmed_start(text.skip(1))
    } else {
        text
    }
}

/// `text` without trailing white space.
pub open spec fn trimmed_end(text: Seq<char>) -> Seq<char>
    decreases text.len(),
{
    if text.len() > 0 && is_white(text.last()) {
        trimmed_end(text.drop_last())
    } else {
        text
    }
}

/// `text` without white space around it.
pub open spec fn trimmed(text: Seq<char>) -> Seq<char> {
    trimmed_end(trimmed_start(text))
}

/// A character in lower case, if it is an ASCII letter.
pub open spec fn ascii_lower(c: char) -> u32 {
    if 'A' <= c <= 'Z' {
        (c as u32 + 32) as u32
    } else {
        c as u32
    }
}

/// Whether `text` begins with `start`, up to the case of ASCII letters.
pub open spec fn begins(text: Seq<char>, start: Seq<char>) -> bool {
    text.len() >= start.len() && forall|i: int|
        0 <= i < start.len() ==> ascii_lower(#[trigger] text[i]) == ascii_lower(start[i])
}

/// The value of a hexadecimal digit.
pub open spec fn hex_value(c: char) -> Option<u8> {
    if '0' <= c <= '9' {
        Some((c as u32 - 48) as u8)
    } else if 'a' <= c <= 'f' {
        Some((c as u32 - 87) as u8)
    } else if 'A' <= c <= 'F' {
        Some((c as u32 - 55) as u8)
    } else {
        None
    }
}

/// The value of two hexadecimal digits.
pub open spec fn pair_value(a: char, b: char) -> Option<u8> {
    match (hex_value(a), hex_value(b)) {
        (Some(high), Some(low)) => Some((16 * high + low) as u8),
        _ => None,
    }
}

/// The bytes that 32 characters write, two characters each.
pub open spec fn key_bytes(text: Seq<char>) -> Option<Seq<u8>> {
    if text.len() == 32 && forall|i: int|
        0 <= i < 16 ==> pair_value(#[trigger] text[2 * i], text[2 * i + 1]) is Some {
        Some(Seq::new(16, |i: int| pair_value(text[2 * i], text[2 * i + 1])->0))
    } else {
        None
    }
}

/// The name of the key field: `| V |`.
pub open spec fn marker() -> Seq<char> {
    seq!['|', ' ', 'V', ' ', '|']
}

/// What follows the first `marker` from `i` on.
pub open spec fn after_marker(text: Seq<char>, i: int) -> Option<Seq<char>>
    decreases text.len() - i,
{
    if i + 5 > text.len() {
        None
    } else if text.subrange(i, i + 5) == marker() {
        Some(text.skip(i + 5))
    } else {
        after_marker(text, i + 1)
    }
}

/// `text` without a leading `0x` or `0X`.
pub open spec fn without_prefix(text: Seq<char>) -> Seq<char> {
    if text.len() >= 2 && text[0] == '0' && (text[1] == 'x' || text[1] == 'X') {
        text.skip(2)
    } else {
        text
    }
}

/// The key on the line of a disc.
pub open spec fn key_on(line: Seq<char>) -> Option<Seq<u8>> {
    match after_marker(line, 0) {
        Some(rest) => {
            let digits = without_prefix(trimmed_start(rest));
            if digits.len() < 32 {
                None
            } else {
                key_bytes(digits.take(32))
            }
        },
        None => None,
    }
}

/// Whether a trimmed line is no entry of a disc: it is empty, a comment, or
/// holds a device key, a processing key or a host certificate.
pub open spec fn is_other(line: Seq<char>) -> bool {
    ||| line.len() == 0
    ||| line[0] == ';'
    ||| line.len() >= 6 && line.take(6) == seq!['|', ' ', 'D', 'K', ' ', '|']
    ||| line.len() >= 6 && line.take(6) == seq!['|', ' ', 'P', 'K', ' ', '|']
    ||| line.len() >= 6 && line.take(6) == seq!['|', ' ', 'H', 'C', ' ', '|']
}

/// Whether a line is the entry of a disc.
pub open spec fn is_entry(line: Seq<char>, disc_id: Seq<char>) -> bool {
    !is_other(trimmed(line)) && begins(trimmed(line), disc_id)
}

/// Whether a lookup that ends at a line comes to `result`: the key, or an
/// error if the line holds none.
pub open spec fn entry_result(
    line: Seq<char>,
    disc_id: Seq<char>,
    result: Result<Option<[u8; 16]>, KeydbError>,
) -> bool {
    match key_on(trimmed(line)) {
        Some(key) => result matches Ok(Some(vuk)) && vuk@ == key,
        None => result matches Err(KeydbError::MalformedEntry { disc_id: id }) && id@ == disc_id,
    }
}

fn is_white_space(c: char) -> (yes: bool)
    ensures
        yes == is_white(c),
{
    let n: u32 = c as u32;
    (0x09 <= n && n <= 0x0D) || n == 0x20 || n == 0x85 || n == 0xA0 || n == 0x1680 || (0x2000 <= n
        && n <= 0x200A) || n == 0x2028 || n == 0x2029 || n == 0x202F || n == 0x205F || n == 0x3000
}

pub(crate) fn lower(c: char) -> (n: u32)
    ensures
        n == ascii_lower(c),
{
    let n: u32 = c as u32;
    if 65 <= n && n <= 90 {
        n + 32
    } else {
        n
    }
}

/// The characters of a text.
pub(crate) fn chars_of(text: &str) -> (chars: Vec<char>)
    ensures
        chars@ == text@,
{
    let mut chars: Vec<char> = Vec::new();
    for c in it: text.chars()
        invariant
            it.seq() == text@,
            chars@ == text@.take(it.index()),
            it.index() == text@.len() ==> chars@ == text@,
    {
        chars.push(c);
    }
    chars
}

fn trim_start(text: &[char]) -> (rest: &[char])
    ensures
        rest@ == trimmed_start(text@),
{
    let length: usize = text.len();
    let mut i: usize = 0;
    proof {
        assert(text@.skip(0) =~= text@);
    }
    while i < length && is_white_space(text[i])
        invariant
            i <= length,
            length == text@.len(),
            trimmed_start(text@.skip(i as int)) == trimmed_start(text@),
        decreases length - i,
    {
        proof {
            assert(text@.skip(i as int).skip(1) =~= text@.skip(i + 1));
        }
        i = i + 1;
    }
    proof {
        assert(text@.skip(i as int) =~= text@.subrange(i as int, length as int));
    }
    vstd::slice::slice_subrange(text, i, length)
}

fn trim_end(text: &[char]) -> (rest: &[char])
    ensures
        rest@ == trimmed_end(text@),
{
    let mut n: usize = text.len();
    proof {
        assert(text@.take(n as int) =~= text@);
    }
    while n > 0 && is_white_space(text[n - 1])
        invariant
            n <= text@.len(),
            trimmed_end(text@.take(n as int)) == trimmed_end(text@),
        decreases n,
    {
        proof {
            assert(text@.take(n as int).drop_last() =~= text@.take(n - 1));
        }
        n = n - 1;
    }
    proof {
        assert(text@.take(n as int) =~= text@.subrange(0, n as int));
    }
    vstd::slice::slice_subrange(text, 0, n)
}

/// Whether six characters are a bar, a space, two letters, a space and a bar.
fn is_key_line(line: &[char], a: char, b: char) -> (yes: bool)
    ensures
        yes == (line@.len() >= 6 && line@.take(6) == seq!['|', ' ', a, b, ' ', '|']),
{
    if line.len() < 6 {
        return false;
    }
    let yes: bool = line[0] == '|' && line[1] == ' ' && line[2] == a && line[3] == b && line[4]
        == ' ' && line[5] == '|';
    proof {
        let six = seq!['|', ' ', a, b, ' ', '|'];
        if yes {
            assert(line@.take(6) =~= six);
        } else if line@.take(6) == six {
            assert(line@.take(6)[0] == six[0]);
            assert(line@.take(6)[1] == six[1]);
            assert(line@.take(6)[2] == six[2]);
            assert(line@.take(6)[3] == six[3]);
            assert(line@.take(6)[4] == six[4]);
            assert(line@.take(6)[5] == six[5]);
        }
    }
    yes
}

fn begins_with(text: &[char], start: &[char]) -> (yes: bool)
    ensures
        yes == begins(text@, start@),
{
    if text.len() < start.len() {
        return false;
    }
    let mut i: usize = 0;
    while i < start.len()
        invariant
            i <= start@.len(),
            start@.len() <= text@.len(),
            forall|j: int|
                0 <= j < i ==> ascii_lower(#[trigger] text@[j]) == ascii_lower(start@[j]),
        decreases start@.len() - i,
    {
        if lower(text[i]) != lower(start[i]) {
            return false;
        }
        i = i + 1;
    }
    true
}

fn find_after_marker(text: &[char]) -> (rest: Option<&[char]>)
    ensures
        match after_marker(text@, 0) {
            Some(s) => rest matches Some(r) && r@ == s,
            None => rest is None,
        },
{
    let length: usize = text.len();
    let mut i: usize = 0;
    while length - i >= 5
        invariant
            i <= length,
            length == text@.len(),
            after_marker(text@, 0) == after_marker(text@, i as int),
        decreases length - i,
    {
        let found: bool = text[i] == '|' && text[i + 1] == ' ' && text[i + 2] == 'V' && text[i + 3]
            == ' ' && text[i + 4] == '|';
        proof {
            let part = text@.subrange(i as int, i + 5);
            if found {
                assert(part =~= marker());
            } else if part == marker() {
                assert(part[0] == marker()[0]);
                assert(part[1] == marker()[1]);
                assert(part[2] == marker()[2]);
                assert(part[3] == marker()[3]);
                assert(part[4] == marker()[4]);
            }
        }
        if found {
            proof {
                assert(text@.skip(i + 5) =~= text@.subrange(i + 5, length as int));
            }
            return Some(vstd::slice::slice_subrange(text, i + 5, length));
        }
        i = i + 1;
    }
    None
}

fn digit_value(c: char) -> (value: Option<u8>)
    ensures
        value == hex_value(c),
{
    let n: u32 = c as u32;
    if 48 <= n && n <= 57 {
        Some((n - 48) as u8)
    } else if 97 <= n && n <= 102 {
        Some((n - 87) as u8)
    } else if 65 <= n && n <= 70 {
        Some((n - 55) as u8)
    } else {
        None
    }
}

fn byte_value(a: char, b: char) -> (value: Option<u8>)
    ensures
        value == pair_value(a, b),
{
    match (digit_value(a), digit_value(b)) {
        (Some(high), Some(low)) => Some(16 * high + low),
        _ => None,
    }
}

/// Parses a key of 32 hexadecimal digits.
pub fn parse_hex_vuk(hex: &[char]) -> (key: Option<[u8; 16]>)
    ensures
        match key_bytes(hex@) {
            Some(bytes) => key matches Some(k) && k@ == bytes,
            None => key is None,
        },
{
    if hex.len() != 32 {
        return None;
    }
    let mut key: [u8; 16] = [0u8; 16];
    let mut i: usize = 0;
    while i < 16
        invariant
            i <= 16,
            hex@.len() == 32,
            key@.len() == 16,
            forall|j: int|
                0 <= j < i ==> pair_value(#[trigger] hex@[2 * j], hex@[2 * j + 1]) == Some(key@[j]),
        decreases 16 - i,
    {
        match byte_value(hex[2 * i], hex[2 * i + 1]) {
            Some(b) => {
                key[i] = b;
            },
            None => {
                assert(pair_value(hex@[2 * i as int], hex@[2 * i as int + 1]) is None);
                return None;
            },
        }
        i = i + 1;
    }
    proof {
        assert forall|j: int| 0 <= j < 16 implies pair_value(
            #[trigger] hex@[2 * j],
            hex@[2 * j + 1],
        ) is Some by {}
        assert(key@ =~= key_bytes(hex@)->0);
    }
    Some(key)
}

/// Extracts the key from the line of a disc.
pub fn extract_vuk(line: &[char], disc_id: &str) -> (result: Result<[u8; 16], KeydbError>)
    ensures
        match key_on(line@) {
            Some(bytes) => result matches Ok(key) && key@ == bytes,
            None => result matches Err(KeydbError::MalformedEntry { disc_id: id }) && id@
                == disc_id@,
        },
{
    if let Some(rest) = find_after_marker(line) {
        let body: &[char] = trim_start(rest);
        let prefixed: bool = body.len() >= 2 && body[0] == '0' && (body[1] == 'x' || body[1]
            == 'X');
        let digits: &[char] = if prefixed {
            proof {
                assert(body@.skip(2) =~= body@.subrange(2, body@.len() as int));
            }
            vstd::slice::slice_subrange(body, 2, body.len())
        } else {
            body
        };
        if digits.len() >= 32 {
            proof {
                assert(digits@.take(32) =~= digits@.subrange(0, 32));
            }
            if let Some(key) = parse_hex_vuk(vstd::slice::slice_subrange(digits, 0, 32)) {
                return Ok(key);
            }
        }
    }
    Err(KeydbError::MalformedEntry { disc_id: String::from_str(disc_id) })
}

/// Looks for a disc on one line. Returns `Ok(None)` if the line is not its
/// entry.
pub fn lookup_line(line: &str, disc_id: &DiscId) -> (result: Result<
    Option<[u8; 16]>,
    KeydbError,
>)
    ensures
        if is_entry(line@, disc_id.id@) {
            entry_result(line@, disc_id.id@, result)
        } else {
            result == Ok::<Option<[u8; 16]>, KeydbError>(None)
        },
{
    let chars: Vec<char> = chars_of(line);
    let text: &[char] = trim_end(trim_start(&chars));
    if text.len() == 0 || text[0] == ';' || is_key_line(text, 'D', 'K') || is_key_line(
        text,
        'P',
        'K',
    ) || is_key_line(text, 'H', 'C') {
        return Ok(None);
    }
    let id: Vec<char> = chars_of(disc_id.id.as_str());
    if !begins_with(text, &id) {
        return Ok(None);
    }
    match extract_vuk(text, disc_id.id.as_str()) {
        Ok(key) => Ok(Some(key)),
        Err(e) => Err(e),
    }
}

/// Whether looking a disc up in lines comes to `result`: the first entry of
/// the disc decides, and there is no key if there is none.
pub open spec fn lookup_result(
    lines: Seq<String>,
    disc_id: Seq<char>,
    i: int,
    result: Result<Option<[u8; 16]>, KeydbError>,
) -> bool
    decreases lines.len() - i,
{
    if i >= lines.len() {
        result == Ok::<Option<[u8; 16]>, KeydbError>(None)
    } else if is_entry(lines[i]@, disc_id) {
        entry_result(lines[i]@, disc_id, result)
    } else {
        lookup_result(lines, disc_id, i + 1, result)
    }
}

/// Looks a disc up in the lines of a database.
pub fn lookup_keydb(lines: &[String], disc_id: &DiscId) -> (result: Result<
    Option<[u8; 16]>,
    KeydbError,
>)
    ensures
        lookup_result(lines@, disc_id.id@, 0, result),
{
    let mut i: usize = 0;
    while i < lines.len()
        invariant
            i <= lines.len(),
            forall|r: Result<Option<[u8; 16]>, KeydbError>|
                lookup_result(lines@, disc_id.id@, i as int, r) ==> #[trigger] lookup_result(
                    lines@,
                    disc_id.id@,
                    0,
                    r,
                ),
        decreases lines.len() - i,
    {
        let found: Result<Option<[u8; 16]>, KeydbError> = lookup_line(lines[i].as_str(), disc_id);
        match found {
            Ok(None) => {},
            _ => {
                assert(lookup_result(lines@, disc_id.id@, i as int, found));
                return found;
            },
        }
        i = i + 1;
    }
    let none: Result<Option<[u8; 16]>, KeydbError> = Ok(None);
    assert(lookup_result(lines@, disc_id.id@, i as int, none));
    none
}

// ---------------------------------------------------------------------------
// Laws
// ---------------------------------------------------------------------------

/// Lines that are not the entry of a disc do not matter to its lookup.
pub proof fn law_other_lines_ignored(
    before: Seq<String>,
    after: Seq<String>,
    disc_id: Seq<char>,
    result: Result<Option<[u8; 16]>, KeydbError>,
)
    requires
        forall|j: int| 0 <= j < before.len() ==> !is_entry(#[trigger] before[j]@, disc_id),
    ensures
        lookup_result(before + after, disc_id, 0, result) <==> lookup_result(
            after,
            disc_id,
            0,
            result,
        ),
{
    lemma_skip_others(before, after, disc_id, result, 0);
    lemma_lookup_shift(before, after, disc_id, result, 0);
}

proof fn lemma_skip_others(
    before: Seq<String>,
    after: Seq<String>,
    disc_id: Seq<char>,
    result: Result<Option<[u8; 16]>, KeydbError>,
    i: int,
)
    requires
        0 <= i <= before.len(),
        forall|j: int| 0 <= j < before.len() ==> !is_entry(#[trigger] before[j]@, disc_id),
    ensures
        lookup_result(before + after, disc_id, i, result) <==> lookup_result(
            before + after,
            disc_id,
            before.len() as int,
            result,
        ),
    decreases before.len() - i,
{
    if i < before.len() {
        assert((before + after)[i] == before[i]);
        assert(!is_entry(before[i]@, disc_id));
        lemma_skip_others(before, after, disc_id, result, i + 1);
    }
}

proof fn lemma_lookup_shift(
    before: Seq<String>,
    after: Seq<String>,
    disc_id: Seq<char>,
    result: Result<Option<[u8; 16]>, KeydbError>,
    i: int,
)
    requires
        0 <= i <= after.len(),
    ensures
        lookup_result(before + after, disc_id, before.len() + i, result) <==> lookup_result(
            after,
            disc_id,
            i,
            result,
        ),
    decreases after.len() - i,
{
    if i < after.len() {
        assert((before + after)[before.len() + i] == after[i]);
        lemma_lookup_shift(before, after, disc_id, result, i + 1);
    }
}

/// Whether a line is the entry of a disc does not depend on the case of ASCII
/// letters in the identity.
pub proof fn law_identity_case_ignored(line: Seq<char>, a: Seq<char>, b: Seq<char>)
    requires
        a.len() == b.len(),
        forall|i: int| 0 <= i < a.len() ==> ascii_lower(#[trigger] a[i]) == ascii_lower(b[i]),
    ensures
        is_entry(line, a) <==> is_entry(line, b),
{
    let text = trimmed(line);
    if begins(text, a) {
        assert forall|i: int| 0 <= i < b.len() implies ascii_lower(#[trigger] text[i])
            == ascii_lower(b[i]) by {
            assert(ascii_lower(a[i]) == ascii_lower(b[i]));
        }
    }
    if begins(text, b) {
        assert forall|i: int| 0 <= i < a.len() implies ascii_lower(#[trigger] text[i])
            == ascii_lower(a[i]) by {
            assert(ascii_lower(a[i]) == ascii_lower(b[i]));
        }
    }
}

} // verus!
