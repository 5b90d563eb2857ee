//! Text: decimal numbers, padding and joining.
use vstd::prelude::*;
use vstd::string::*;

pub mod laws;

verus! {

/// The character of a decimal digit.
pub open spec fn digit(d: nat) -> char {
    (48 + d) as char
}

/// A number in decimal.
pub open spec fn decimal(n: nat) -> Seq<char>
    decreases n,
{
    if n < 10 {
        seq![digit(n)]
    } else {
        decimal(n / 10).push(digit(n % 10))
    }
}

/// `text` behind as many copies of `fill` as make it `width` characters long.
pub open spec fn padded_left(text: Seq<char>, width: nat, fill: char) -> Seq<char>
    decreases width - text.len(),
{
    if text.len() >= width {
        text
    } else {
        padded_left(seq![fill] + text, width, fill)
    }
}

/// Texts with a separator between them.
pub open spec fn joined(parts: Seq<Seq<char>>, separator: Seq<char>) -> Seq<char>
    decreases parts.len(),
{
    if parts.len() == 0 {
        seq![]
    } else if parts.len() == 1 {
        parts[0]
    } else {
        joined(parts.drop_last(), separator) + separator + parts.last()
    }
}

/// The texts of strings.
pub open spec fn texts(parts: Seq<String>) -> Seq<Seq<char>> {
    parts.map_values(|s: String| s@)
}

fn digit_text(d: u64) -> (s: &'static str)
    requires
        d < 10,
    ensures
        s@ == seq![digit(d as nat)],
{
    proof {
        reveal_strlit("0");
        reveal_strlit("1");
        reveal_strlit("2");
        reveal_strlit("3");
        reveal_strlit("4");
        reveal_strlit("5");
        reveal_strlit("6");
        reveal_strlit("7");
        reveal_strlit("8");
        reveal_strlit("9");
    }
    let s: &'static str = if d == 0 {
        "0"
    } else if d == 1 {
        "1"
    } else if d == 2 {
        "2"
    } else if d == 3 {
        "3"
    } else if d == 4 {
        "4"
    } else if d == 5 {
        "5"
    } else if d == 6 {
        "6"
    } else if d == 7 {
        "7"
    } else if d == 8 {
        "8"
    } else {
        "9"
    };
    assert(s@ =~= seq![digit(d as nat)]);
    s
}

/// Writes a number in decimal.
pub fn to_decimal(n: u64) -> (text: String)
    ensures
        text@ == decimal(n as nat),
    decreases n,
{
    if n < 10 {
        String::from_str(digit_text(n))
    } else {
        let mut text: String = to_decimal(n / 10);
        text.append(digit_text(n % 10));
        proof {
            let d = digit((n % 10) as nat);
            assert(decimal((n / 10) as nat) + seq![d] =~= decimal((n / 10) as nat).push(d));
        }
        text
    }
}

/// Puts copies of a one-character text before a text.
pub fn pad_left(text: &str, width: usize, fill: &str) -> (padded: String)
    requires
        fill@.len() == 1,
    ensures
        padded@ == padded_left(text@, width as nat, fill@[0]),
{
    let mut padded: String = String::from_str(text);
    let mut length: usize = text.unicode_len();
    while length < width
        invariant
            length == padded@.len(),
            fill@.len() == 1,
            padded_left(padded@, width as nat, fill@[0]) == padded_left(
                text@,
                width as nat,
                fill@[0],
            ),
        decreases width - length,
    {
        let ghost before = padded@;
        let mut longer: String = String::from_str(fill);
        longer.append(padded.as_str());
        padded = longer;
        proof {
            assert(padded@ =~= seq![fill@[0]] + before);
        }
        length = length + 1;
    }
    padded
}

/// Writes a number in decimal with leading zeros.
pub fn zero_padded(n: u64, width: usize) -> (text: String)
    ensures
        text@ == padded_left(decimal(n as nat), width as nat, '0'),
{
    proof {
        reveal_strlit("0");
    }
    let text: String = to_decimal(n);
    pad_left(text.as_str(), width, "0")
}

/// Writes a text behind leading spaces.
pub fn space_padded(text: &str, width: usize) -> (padded: String)
    ensures
        padded@ == padded_left(text@, width as nat, ' '),
{
    proof {
        reveal_strlit(" ");
    }
    pad_left(text, width, " ")
}

/// Joins texts with a separator between them.
pub fn join(parts: &[String], separator: &str) -> (text: String)
    ensures
        text@ == joined(texts(parts@), separator@),
{
    let mut text: String = String::new();
    let mut i: usize = 0;
    while i < parts.len()
        invariant
            i <= parts.len(),
            text@ == joined(texts(parts@.take(i as int)), separator@),
        decreases parts.len() - i,
    {
        let ghost before = text@;
        if i > 0 {
            text.append(separator);
        }
        text.append(parts[i].as_str());
        proof {
            let all = texts(parts@.take(i + 1));
            assert(all.drop_last() =~= texts(parts@.take(i as int)));
            assert(all.last() == parts@[i as int]@);
            if i == 0 {
                assert(text@ =~= all[0]);
            } else {
                assert(text@ =~= before + separator@ + parts@[i as int]@);
            }
        }
        i = i + 1;
    }
    proof {
        assert(parts@.take(i as int) =~= parts@);
    }
    text
}

/// Joins three texts.
pub fn concat3(a: &str, b: &str, c: &str) -> (text: String)
    ensures
        text@ == a@ + b@ + c@,
{
    let mut text: String = String::from_str(a);
    text.append(b);
    text.append(c);
    text
}

/// Bytes in decimal, separated by commas.
pub open spec fn listed(bytes: Seq<u8>) -> Seq<char>
    decreases bytes.len(),
{
    if bytes.len() == 0 {
        seq![]
    } else if bytes.len() == 1 {
        decimal(bytes[0] as nat)
    } else {
        listed(bytes.drop_last()) + ", "@ + decimal(bytes.last() as nat)
    }
}

/// A list of bytes, such as `[1, 2, 3]`.
pub open spec fn bytes_text(bytes: Seq<u8>) -> Seq<char> {
    "["@ + listed(bytes) + "]"@
}

/// Writes a list of bytes.
pub fn debug_bytes(bytes: &[u8]) -> (text: String)
    ensures
        text@ == bytes_text(bytes@),
{
    let mut text: String = String::from_str("[");
    let mut i: usize = 0;
    while i < bytes.len()
        invariant
            i <= bytes.len(),
            text@ == "["@ + listed(bytes@.take(i as int)),
        decreases bytes.len() - i,
    {
        let ghost before = bytes@.take(i as int);
        let ghost after = bytes@.take(i + 1);
        if i > 0 {
            text.append(", ");
        }
        text.append(to_decimal(bytes[i] as u64).as_str());
        proof {
            assert(after.drop_last() =~= before);
            assert(after.last() == bytes@[i as int]);
            assert(text@ =~= "["@ + listed(after));
        }
        i = i + 1;
    }
    proof {
        assert(bytes@.take(i as int) =~= bytes@);
    }
    text.append("]");
    text
}

/// The character of a hexadecimal digit, in lower case.
pub open spec fn hex_digit(d: nat) -> char {
    if d < 10 {
        (48 + d) as char
    } else {
        (87 + d) as char
    }
}

/// A number in hexadecimal.
pub open spec fn hex(n: nat) -> Seq<char>
    decreases n,
{
    if n < 16 {
        seq![hex_digit(n)]
    } else {
        hex(n / 16).push(hex_digit(n % 16))
    }
}

/// Bytes in hexadecimal, two digits each.
pub open spec fn hex_pairs(bytes: Seq<u8>) -> Seq<char>
    decreases bytes.len(),
{
    if bytes.len() == 0 {
        seq![]
    } else {
        hex_pairs(bytes.drop_last()).push(hex_digit((bytes.last() / 16) as nat)).push(
            hex_digit((bytes.last() % 16) as nat),
        )
    }
}

fn hex_digit_text(d: u64) -> (s: &'static str)
    requires
        d < 16,
    ensures
        s@ == seq![hex_digit(d as nat)],
{
    if d < 10 {
        return digit_text(d);
    }
    proof {
        reveal_strlit("a");
        reveal_strlit("b");
        reveal_strlit("c");
        reveal_strlit("d");
        reveal_strlit("e");
        reveal_strlit("f");
    }
    let s: &'static str = if d == 10 {
        "a"
    } else if d == 11 {
        "b"
    } else if d == 12 {
        "c"
    } else if d == 13 {
        "d"
    } else if d == 14 {
        "e"
    } else {
        "f"
    };
    assert(s@ =~= seq![hex_digit(d as nat)]);
    s
}

/// Writes a number in hexadecimal.
pub fn to_hex(n: u64) -> (text: String)
    ensures
        text@ == hex(n as nat),
    decreases n,
{
    if n < 16 {
        String::from_str(hex_digit_text(n))
    } else {
        let mut text: String = to_hex(n / 16);
        text.append(hex_digit_text(n % 16));
        proof {
            let d = hex_digit((n % 16) as nat);
            assert(hex((n / 16) as nat) + seq![d] =~= hex((n / 16) as nat).push(d));
        }
        text
    }
}

/// Writes bytes in hexadecimal, two digits each.
pub fn to_hex_pairs(bytes: &[u8]) -> (text: String)
    ensures
        text@ == hex_pairs(bytes@),
{
    let mut text: String = String::new();
    let mut i: usize = 0;
    while i < bytes.len()
        invariant
            i <= bytes.len(),
            text@ == hex_pairs(bytes@.take(i as int)),
        decreases bytes.len() - i,
    {
        let ghost before = text@;
        let b: u8 = bytes[i];
        text.append(hex_digit_text((b / 16) as u64));
        text.append(hex_digit_text((b % 16) as u64));
        proof {
            let now = bytes@.take(i + 1);
            assert(now.drop_last() =~= bytes@.take(i as int));
            assert(now.last() == b);
            assert(text@ =~= hex_pairs(now));
        }
        i = i + 1;
    }
    proof {
        assert(bytes@.take(i as int) =~= bytes@);
    }
    text
}

/// Returns the code point of a character.
pub fn code_point(c: char) -> (n: u32)
    ensures
        n as int == c as int,
        n == c as u32,
{
    c as u32
}

} // verus!
