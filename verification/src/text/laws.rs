//! What numbers and lists read like.
use vstd::prelude::*;
use vstd::string::*;

use super::{bytes_text, decimal, digit, hex, hex_digit, hex_pairs, joined, listed, padded_left};

verus! {

/// The number that decimal digits write.
pub open spec fn read_decimal(text: Seq<char>) -> int
    decreases text.len(),
{
    if text.len() == 0 {
        0
    } else {
        10 * read_decimal(text.drop_last()) + (text.last() as u32 - 48)
    }
}

/// A number in decimal is made of digits, without a zero in front but for the
/// number zero, and reads back as the number.
pub proof fn law_decimal_reads_back(n: nat)
    ensures
        decimal(n).len() > 0,
        forall|i: int| 0 <= i < decimal(n).len() ==> '0' <= #[trigger] decimal(n)[i] <= '9',
        decimal(n)[0] == '0' <==> n == 0,
        n < 10 ==> decimal(n).len() == 1,
        read_decimal(decimal(n)) == n,
    decreases n,
{
    if n < 10 {
        assert(decimal(n) =~= seq![digit(n)]);
        assert(decimal(n).drop_last() =~= seq![]);
        assert(read_decimal(Seq::<char>::empty()) == 0);
    } else {
        law_decimal_reads_back(n / 10);
        assert(decimal(n).drop_last() =~= decimal(n / 10));
        assert(decimal(n)[0] == decimal(n / 10)[0]);
    }
}

/// The number that hexadecimal digits in lower case write.
pub open spec fn read_hex(text: Seq<char>) -> int
    decreases text.len(),
{
    if text.len() == 0 {
        0
    } else {
        16 * read_hex(text.drop_last()) + (if text.last() as u32 >= 97 {
            text.last() as u32 - 87
        } else {
            text.last() as u32 - 48
        })
    }
}

/// Whether a character is a hexadecimal digit in lower case.
pub open spec fn is_hex(c: char) -> bool {
    '0' <= c <= '9' || 'a' <= c <= 'f'
}

/// A number in hexadecimal is made of digits in lower case, without a zero in
/// front but for the number zero, and reads back as the number.
pub proof fn law_hex_reads_back(n: nat)
    ensures
        hex(n).len() > 0,
        forall|i: int| 0 <= i < hex(n).len() ==> is_hex(#[trigger] hex(n)[i]),
        hex(n)[0] == '0' <==> n == 0,
        read_hex(hex(n)) == n,
    decreases n,
{
    if n < 16 {
        assert(hex(n) =~= seq![hex_digit(n)]);
        assert(hex(n).drop_last() =~= seq![]);
        assert(read_hex(Seq::<char>::empty()) == 0);
    } else {
        law_hex_reads_back(n / 16);
        assert(hex(n).drop_last() =~= hex(n / 16));
        assert(hex(n)[0] == hex(n / 16)[0]);
    }
}

/// Bytes in hexadecimal have two digits each, which read back as the byte.
pub proof fn law_hex_pairs_read_back(bytes: Seq<u8>, i: int)
    requires
        0 <= i < bytes.len(),
    ensures
        hex_pairs(bytes).len() == 2 * bytes.len(),
        is_hex(hex_pairs(bytes)[2 * i]),
        is_hex(hex_pairs(bytes)[2 * i + 1]),
        read_hex(seq![hex_pairs(bytes)[2 * i], hex_pairs(bytes)[2 * i + 1]]) == bytes[i],
    decreases bytes.len(),
{
    let init = bytes.drop_last();
    if init.len() > 0 {
        law_hex_pairs_read_back(init, if i < init.len() {
            i
        } else {
            0
        });
    } else {
        assert(hex_pairs(init).len() == 0);
    }
    let all = hex_pairs(bytes);
    assert(hex_pairs(init).len() == 2 * init.len());
    if i == init.len() {
        let (a, b) = (all[2 * i], all[2 * i + 1]);
        assert(a == hex_digit((bytes.last() / 16) as nat));
        assert(b == hex_digit((bytes.last() % 16) as nat));
        let pair = seq![a, b];
        assert(pair.drop_last() =~= seq![a]);
        assert(seq![a].drop_last() =~= seq![]);
        assert(read_hex(Seq::<char>::empty()) == 0);
        assert(read_hex(seq![a]) == bytes.last() / 16);
        assert(pair.last() == b);
        assert(read_hex(pair) == 16 * (bytes.last() / 16) + bytes.last() % 16);
    } else {
        assert(all[2 * i] == hex_pairs(init)[2 * i]);
        assert(all[2 * i + 1] == hex_pairs(init)[2 * i + 1]);
    }
}

/// Padding puts as many copies of the character in front as are missing, and
/// leaves the text behind them as it is.
pub proof fn law_padding_fills_in_front(text: Seq<char>, width: nat, fill: char)
    ensures
        text.len() >= width ==> padded_left(text, width, fill) == text,
        text.len() < width ==> padded_left(text, width, fill).len() == width,
        text.len() < width ==> forall|i: int|
            0 <= i < width - text.len() ==> #[trigger] padded_left(text, width, fill)[i] == fill,
        text.len() < width ==> padded_left(text, width, fill).skip(width - text.len()) == text,
    decreases width - text.len(),
{
    if text.len() < width {
        let more = seq![fill] + text;
        law_padding_fills_in_front(more, width, fill);
        let all = padded_left(text, width, fill);
        if more.len() == width {
            assert(all.skip(1) =~= text);
        } else {
            assert(all.skip(width - more.len()) == more);
            assert forall|i: int| 0 <= i < width - text.len() implies #[trigger] all[i] == fill by {
                if i == width - text.len() - 1 {
                    assert(all.skip(width - more.len())[0] == fill);
                }
            }
            assert(all.skip(width - text.len()) =~= all.skip(width - more.len()).skip(1));
            assert(more.skip(1) =~= text);
        }
    }
}

/// Texts are joined in order, with the separator between each two.
pub proof fn law_joining(parts: Seq<Seq<char>>, part: Seq<char>, separator: Seq<char>)
    ensures
        joined(Seq::empty(), separator).len() == 0,
        parts.len() == 0 ==> joined(parts.push(part), separator) == part,
        parts.len() > 0 ==> joined(parts.push(part), separator) == joined(parts, separator)
            + separator + part,
{
    assert(parts.push(part).drop_last() =~= parts);
}

/// Bytes read as a list in brackets, in decimal, with a comma and a space
/// between each two.
pub proof fn law_byte_lists(bytes: Seq<u8>, b: u8)
    ensures
        bytes_text(bytes) == "["@ + listed(bytes) + "]"@,
        listed(Seq::empty()).len() == 0,
        bytes.len() == 0 ==> listed(bytes.push(b)) == decimal(b as nat),
        bytes.len() > 0 ==> listed(bytes.push(b)) == listed(bytes) + ", "@ + decimal(b as nat),
{
    assert(bytes.push(b).drop_last() =~= bytes);
}

} // verus!
