//! A cursor over big-endian binary data.
use vstd::prelude::*;
use vstd::string::*;

use crate::text::{decimal, to_decimal};

pub mod laws;

verus! {

/// A read past the end of the data.
#[derive(Debug, Clone, Copy, PartialEq, Eq, Structural)]
pub struct CursorError {
    /// Position of the read.
    pub offset: usize,
    /// Number of bytes asked for.
    pub needed: usize,
    /// Number of bytes that there were.
    pub available: usize,
}

/// The message of a read past the end of the data.
pub open spec fn eof_text(e: CursorError) -> Seq<char> {
    "unexpected end of data at offset "@ + decimal(e.offset as nat) + " (need "@ + decimal(
        e.needed as nat,
    ) + " bytes, have "@ + decimal(e.available as nat) + ")"@
}

impl CursorError {
    /// Describes the error.
    pub fn message(&self) -> (text: String)
        ensures
            text@ == eof_text(*self),
    {
        let mut text: String = String::from_str("unexpected end of data at offset ");
        text.append(to_decimal(self.offset as u64).as_str());
        text.append(" (need ");
        text.append(to_decimal(self.needed as u64).as_str());
        text.append(" bytes, have ");
        text.append(to_decimal(self.available as u64).as_str());
        text.append(")");
        text
    }
}

/// What a parser makes of the data from some position on: a value and the
/// position after it.
pub type Parsed<T> = Result<(T, int), CursorError>;

/// The number of bytes from `pos` on.
pub open spec fn left(len: nat, pos: int) -> int {
    if pos <= len {
        len - pos
    } else {
        0
    }
}

/// The error of a read of `n` bytes at `pos`.
pub open spec fn short(len: nat, pos: int, n: int) -> CursorError {
    CursorError { offset: pos as usize, needed: n as usize, available: left(len, pos) as usize }
}

/// The error of a move past the end of the data.
pub open spec fn beyond(pos: int) -> CursorError {
    CursorError { offset: pos as usize, needed: 0, available: 0 }
}

/// The big-endian 16-bit number at `i`.
pub open spec fn be16(s: Seq<u8>, i: int) -> u16 {
    (s[i] * 0x100 + s[i + 1]) as u16
}

/// The big-endian 32-bit number at `i`.
pub open spec fn be32(s: Seq<u8>, i: int) -> u32 {
    (s[i] * 0x100_0000 + s[i + 1] * 0x1_0000 + s[i + 2] * 0x100 + s[i + 3]) as u32
}

/// Where consecutive fields of the given sizes end, from field `i` on; the
/// first that does not fit is an error.
pub open spec fn fields(len: nat, pos: int, sizes: Seq<usize>, i: int) -> Result<int, CursorError>
    decreases sizes.len() - i,
{
    if i >= sizes.len() {
        Ok(pos)
    } else if left(len, pos) < sizes[i] {
        Err(short(len, pos, sizes[i] as int))
    } else {
        fields(len, pos + sizes[i], sizes, i + 1)
    }
}

/// `n` items one after another.
pub open spec fn items<T>(item: spec_fn(int) -> Parsed<T>, pos: int, n: int) -> Parsed<Seq<T>>
    decreases n,
{
    if n <= 0 {
        Ok((seq![], pos))
    } else {
        match items(item, pos, n - 1) {
            Ok((before, p)) => match item(p) {
                Ok((x, q)) => Ok((before.push(x), q)),
                Err(e) => Err(e),
            },
            Err(e) => Err(e),
        }
    }
}

/// An item that cannot be read makes all longer lists unreadable.
pub proof fn lemma_items_err<T>(item: spec_fn(int) -> Parsed<T>, pos: int, i: int, n: int)
    requires
        i <= n,
        items(item, pos, i) is Err,
    ensures
        items(item, pos, n) == items(item, pos, i),
    decreases n - i,
{
    if i < n {
        lemma_items_err(item, pos, i, n - 1);
    }
}

/// A position in binary data.
pub struct Cursor<'a> {
    /// The data.
    pub data: &'a [u8],
    /// Position of the next read.
    pub pos: usize,
}

impl<'a> Cursor<'a> {
    /// The data.
    pub open spec fn bytes(&self) -> Seq<u8> {
        self.data@
    }

    /// Makes a cursor at the start of the data.
    #[must_use]
    pub fn new(data: &'a [u8]) -> (r: Self)
        ensures
            r.bytes() == data@,
            r.pos == 0,
            data@.len() <= usize::MAX,
    {
        let length: usize = data.len();
        assert(length == data@.len());
        Cursor { data, pos: 0 }
    }

    /// Returns the number of bytes from the position on.
    #[must_use]
    pub fn remaining(&self) -> (n: usize)
        ensures
            n == left(self.bytes().len(), self.pos as int),
            self.bytes().len() <= usize::MAX,
    {
        self.data.len().saturating_sub(self.pos)
    }

    /// Checks that there are `n` more bytes.
    pub fn ensure(&self, n: usize) -> (result: Result<(), CursorError>)
        ensures
            result == if left(self.bytes().len(), self.pos as int) < n {
                Err::<(), CursorError>(short(self.bytes().len(), self.pos as int, n as int))
            } else {
                Ok(())
            },
            self.bytes().len() <= usize::MAX,
    {
        if self.remaining() < n {
            return Err(
                CursorError { offset: self.pos, needed: n, available: self.remaining() },
            );
        }
        Ok(())
    }

    /// Moves forward by `n` bytes.
    pub fn skip(&mut self, n: usize) -> (result: Result<(), CursorError>)
        ensures
            final(self).bytes() == old(self).bytes(),
            result == if left(old(self).bytes().len(), old(self).pos as int) < n {
                Err::<(), CursorError>(
                    short(old(self).bytes().len(), old(self).pos as int, n as int),
                )
            } else {
                Ok(())
            },
            final(self).pos == old(self).pos + if result is Ok {
                n as int
            } else {
                0
            },
    {
        match self.ensure(n) {
            Ok(()) => {
                self.pos = self.pos + n;
                Ok(())
            },
            Err(e) => Err(e),
        }
    }

    /// Moves past consecutive fields of the given sizes, and returns where
    /// they start.
    pub fn skip_fields(&mut self, sizes: &[usize]) -> (result: Result<usize, CursorError>)
        requires
            old(self).pos <= old(self).bytes().len(),
        ensures
            final(self).bytes() == old(self).bytes(),
            match fields(old(self).bytes().len(), old(self).pos as int, sizes@, 0) {
                Ok(end) => result == Ok::<usize, CursorError>(old(self).pos) && final(self).pos
                    == end,
                Err(e) => result == Err::<usize, CursorError>(e) && final(self).pos == e.offset,
            },
            final(self).pos <= final(self).bytes().len(),
            final(self).bytes().len() <= usize::MAX,
    {
        let start: usize = self.pos;
        let length: usize = self.data.len();
        let ghost len = self.bytes().len();
        let mut i: usize = 0;
        while i < sizes.len()
            invariant
                i <= sizes.len(),
                len == length == self.bytes().len(),
                self.pos <= len,
                self.bytes() == old(self).bytes(),
                start == old(self).pos,
                fields(len, start as int, sizes@, 0) == fields(
                    len,
                    self.pos as int,
                    sizes@,
                    i as int,
                ),
            decreases sizes.len() - i,
        {
            match self.skip(sizes[i]) {
                Ok(()) => {},
                Err(e) => {
                    return Err(e);
                },
            }
            i = i + 1;
        }
        Ok(start)
    }

    /// Reads one byte.
    pub fn read_u8(&mut self) -> (result: Result<u8, CursorError>)
        ensures
            final(self).bytes() == old(self).bytes(),
            result == if left(old(self).bytes().len(), old(self).pos as int) < 1 {
                Err::<u8, CursorError>(short(old(self).bytes().len(), old(self).pos as int, 1))
            } else {
                Ok(old(self).bytes()[old(self).pos as int])
            },
            final(self).pos == old(self).pos + if result is Ok {
                1int
            } else {
                0
            },
    {
        match self.ensure(1) {
            Ok(()) => {
                let v: u8 = self.data[self.pos];
                self.pos = self.pos + 1;
                Ok(v)
            },
            Err(e) => Err(e),
        }
    }

    /// Reads a 16-bit number.
    pub fn read_u16(&mut self) -> (result: Result<u16, CursorError>)
        ensures
            final(self).bytes() == old(self).bytes(),
            result == if left(old(self).bytes().len(), old(self).pos as int) < 2 {
                Err::<u16, CursorError>(short(old(self).bytes().len(), old(self).pos as int, 2))
            } else {
                Ok(be16(old(self).bytes(), old(self).pos as int))
            },
            final(self).pos == old(self).pos + if result is Ok {
                2int
            } else {
                0
            },
    {
        match self.ensure(2) {
            Ok(()) => {
                let v: u16 = get_u16(self.data, self.pos);
                self.pos = self.pos + 2;
                Ok(v)
            },
            Err(e) => Err(e),
        }
    }

    /// Reads a 32-bit number.
    pub fn read_u32(&mut self) -> (result: Result<u32, CursorError>)
        ensures
            final(self).bytes() == old(self).bytes(),
            result == if left(old(self).bytes().len(), old(self).pos as int) < 4 {
                Err::<u32, CursorError>(short(old(self).bytes().len(), old(self).pos as int, 4))
            } else {
                Ok(be32(old(self).bytes(), old(self).pos as int))
            },
            final(self).pos == old(self).pos + if result is Ok {
                4int
            } else {
                0
            },
    {
        match self.ensure(4) {
            Ok(()) => {
                let v: u32 = get_u32(self.data, self.pos);
                self.pos = self.pos + 4;
                Ok(v)
            },
            Err(e) => Err(e),
        }
    }

    /// Reads `n` bytes.
    pub fn read_bytes(&mut self, n: usize) -> (result: Result<&'a [u8], CursorError>)
        requires
            n > 0 || old(self).pos <= old(self).bytes().len(),
        ensures
            final(self).bytes() == old(self).bytes(),
            if left(old(self).bytes().len(), old(self).pos as int) < n {
                result == Err::<&'a [u8], CursorError>(
                    short(old(self).bytes().len(), old(self).pos as int, n as int),
                )
            } else {
                result matches Ok(s) && s@ == old(self).bytes().subrange(
                    old(self).pos as int,
                    old(self).pos + n,
                )
            },
            final(self).pos == old(self).pos + if result is Ok {
                n as int
            } else {
                0
            },
    {
        match self.ensure(n) {
            Ok(()) => {
                let s: &'a [u8] = vstd::slice::slice_subrange(self.data, self.pos, self.pos + n);
                self.pos = self.pos + n;
                Ok(s)
            },
            Err(e) => Err(e),
        }
    }

    /// Moves to a position, which may be the end of the data.
    pub fn seek(&mut self, new_pos: usize) -> (result: Result<(), CursorError>)
        ensures
            final(self).bytes() == old(self).bytes(),
            result == if new_pos > old(self).bytes().len() {
                Err::<(), CursorError>(beyond(new_pos as int))
            } else {
                Ok(())
            },
            final(self).pos == if result is Ok {
                new_pos
            } else {
                old(self).pos
            },
    {
        if new_pos > self.data.len() {
            return Err(CursorError { offset: new_pos, needed: 0, available: 0 });
        }
        self.pos = new_pos;
        Ok(())
    }
}

/// Returns the 16-bit number at `i`.
pub fn get_u16(data: &[u8], i: usize) -> (v: u16)
    requires
        i + 2 <= data@.len(),
    ensures
        v == be16(data@, i as int),
{
    data[i] as u16 * 0x100 + data[i + 1] as u16
}

/// Returns the 32-bit number at `i`.
pub fn get_u32(data: &[u8], i: usize) -> (v: u32)
    requires
        i + 4 <= data@.len(),
    ensures
        v == be32(data@, i as int),
{
    data[i] as u32 * 0x100_0000 + data[i + 1] as u32 * 0x1_0000 + data[i + 2] as u32 * 0x100
        + data[i + 3] as u32
}

} // verus!
