//! Where fields and items lie that are read one after another.
use vstd::prelude::*;
use vstd::string::*;

use super::{be16, be32, beyond, eof_text, fields, items, left, short, CursorError, Parsed};
use crate::clpi::ClpiError;
use crate::ig::IgError;
use crate::index::IndexError;
use crate::mobj::MobjError;
use crate::text::decimal;

verus! {

/// The sizes of the fields from `i` up to `k`, added up.
pub open spec fn extent(sizes: Seq<usize>, i: int, k: int) -> int
    decreases k - i,
{
    if i >= k {
        0
    } else {
        sizes[i] + extent(sizes, i + 1, k)
    }
}

proof fn lemma_extent(sizes: Seq<usize>, i: int, k: int)
    ensures
        extent(sizes, i, k) >= 0,
    decreases k - i,
{
    if i < k {
        lemma_extent(sizes, i + 1, k);
    }
}

/// Big-endian numbers: the first byte counts most.
pub proof fn law_big_endian(s: Seq<u8>, i: int)
    ensures
        be16(s, i) == 256 * s[i] + s[i + 1],
        be32(s, i) == 65536 * be16(s, i) + be16(s, i + 2),
{
}

/// What an error of a read and of a move says.
pub proof fn law_errors(len: nat, pos: int, n: int)
    requires
        0 <= pos <= usize::MAX,
        0 <= n <= usize::MAX,
        len <= usize::MAX,
    ensures
        short(len, pos, n).offset == pos,
        short(len, pos, n).needed == n,
        pos <= len ==> short(len, pos, n).available == len - pos,
        pos > len ==> short(len, pos, n).available == 0,
        beyond(pos).offset == pos,
        beyond(pos).needed == 0,
        beyond(pos).available == 0,
{
}

/// Fields one after another fit exactly if they do not reach beyond the end,
/// and they end after all their sizes. Else the first that does not fit is
/// the error.
pub proof fn law_fields_follow(len: nat, pos: int, sizes: Seq<usize>, i: int)
    requires
        0 <= pos <= len,
        0 <= i <= sizes.len(),
    ensures
        fields(len, pos, sizes, i) is Ok <==> pos + extent(sizes, i, sizes.len() as int) <= len,
        fields(len, pos, sizes, i) matches Ok(end) ==> end == pos + extent(
            sizes,
            i,
            sizes.len() as int,
        ),
        fields(len, pos, sizes, i) matches Err(e) ==> exists|k: int|
            i <= k < sizes.len() && pos + extent(sizes, i, k) <= len && pos + extent(sizes, i, k)
                + sizes[k] > len && e == short(
                len,
                pos + #[trigger] extent(sizes, i, k),
                sizes[k] as int,
            ),
    decreases sizes.len() - i,
{
    if i < sizes.len() {
        lemma_extent(sizes, i + 1, sizes.len() as int);
        if left(len, pos) < sizes[i] {
            assert(extent(sizes, i, i) == 0);
        } else {
            law_fields_follow(len, pos + sizes[i], sizes, i + 1);
            if let Err(e) = fields(len, pos, sizes, i) {
                let k = choose|k: int|
                    i + 1 <= k < sizes.len() && pos + sizes[i] + extent(sizes, i + 1, k) <= len
                        && pos + sizes[i] + extent(sizes, i + 1, k) + sizes[k] > len && e == short(
                        len,
                        pos + sizes[i] + #[trigger] extent(sizes, i + 1, k),
                        sizes[k] as int,
                    );
                assert(extent(sizes, i, k) == sizes[i] + extent(sizes, i + 1, k));
            }
        }
    }
}

/// Fields of a known extent fit exactly if that is left, and end behind it.
pub(crate) proof fn lemma_fields(len: nat, pos: int, sizes: Seq<usize>, size: int)
    requires
        0 <= pos <= len,
        extent(sizes, 0, sizes.len() as int) == size,
    ensures
        fields(len, pos, sizes, 0) is Ok <==> pos + size <= len,
        fields(len, pos, sizes, 0) matches Ok(end) ==> end == pos + size,
{
    law_fields_follow(len, pos, sizes, 0);
}

/// Items that could be read lie one behind the other: `at` says where each
/// starts, and where the last one ends.
pub proof fn law_items_follow<T>(item: spec_fn(int) -> Parsed<T>, pos: int, n: int) -> (at: Seq<
    int,
>)
    requires
        0 <= n,
        items(item, pos, n) is Ok,
    ensures
        at.len() == n + 1,
        at[0] == pos,
        items(item, pos, n)->Ok_0.0.len() == n,
        items(item, pos, n)->Ok_0.1 == at[n],
        forall|k: int|
            0 <= k < n ==> #[trigger] item(at[k]) == Ok::<(T, int), CursorError>(
                (items(item, pos, n)->Ok_0.0[k], at[k + 1]),
            ),
    decreases n,
{
    if n == 0 {
        seq![pos]
    } else {
        let before = law_items_follow(item, pos, n - 1);
        before.push(items(item, pos, n)->Ok_0.1)
    }
}

/// If items lie one behind the other, they are read as they are.
pub proof fn law_items_read<T>(
    item: spec_fn(int) -> Parsed<T>,
    list: Seq<T>,
    at: Seq<int>,
    n: int,
)
    requires
        0 <= n < at.len(),
        n <= list.len(),
        forall|k: int|
            0 <= k < n ==> #[trigger] item(at[k]) == Ok::<(T, int), CursorError>(
                (list[k], at[k + 1]),
            ),
    ensures
        items(item, at[0], n) == Ok::<(Seq<T>, int), CursorError>((list.take(n), at[n])),
    decreases n,
{
    if n > 0 {
        law_items_read(item, list, at, n - 1);
        assert(item(at[n - 1]) == Ok::<(T, int), CursorError>((list[n - 1], at[n])));
        assert(list.take(n - 1).push(list[n - 1]) =~= list.take(n));
    } else {
        assert(list.take(0) =~= seq![]);
    }
}

/// Items of equal size lie at equal distances, and can be read exactly if the
/// last one does not reach beyond the end.
pub proof fn law_equal_items<T>(
    item: spec_fn(int) -> Parsed<T>,
    len: nat,
    pos: int,
    size: int,
    n: int,
)
    requires
        0 <= pos <= len,
        0 <= n,
        0 < size,
        forall|p: int| 0 <= p <= len ==> (#[trigger] item(p) is Ok <==> p + size <= len),
        forall|p: int|
            0 <= p <= len && #[trigger] item(p) is Ok ==> item(p)->Ok_0.1 == p + size,
    ensures
        items(item, pos, n) is Ok <==> pos + n * size <= len,
        items(item, pos, n) matches Ok((list, end)) ==> {
            &&& list.len() == n
            &&& end == pos + n * size
            &&& forall|k: int|
                0 <= k < n ==> #[trigger] list[k] == item(pos + k * size)->Ok_0.0
        },
    decreases n,
{
    if n > 0 {
        law_equal_items(item, len, pos, size, n - 1);
        assert(n * size == (n - 1) * size + size) by (nonlinear_arith);
        assert(0 <= (n - 1) * size) by (nonlinear_arith)
            requires
                n > 0,
                size > 0,
        ;
        let p = pos + (n - 1) * size;
        if p <= len {
            assert(item(p) is Ok <==> p + size <= len);
        }
    } else {
        assert(n * size == 0) by (nonlinear_arith)
            requires
                n == 0,
        ;
    }
}

/// What the message of a read past the end says.
pub proof fn law_messages(e: CursorError)
    ensures
        eof_text(e) == "unexpected end of data at offset "@ + decimal(e.offset as nat)
            + " (need "@ + decimal(e.needed as nat) + " bytes, have "@ + decimal(
            e.available as nat,
        ) + ")"@,
{
}

/// The errors of all parsers say of a read what the read was.
pub proof fn law_parsers_report_reads(e: CursorError)
    ensures
        ClpiError::eof(e) == (ClpiError::UnexpectedEof {
            offset: e.offset,
            needed: e.needed,
            available: e.available,
        }),
        IndexError::eof(e) == (IndexError::UnexpectedEof {
            offset: e.offset,
            needed: e.needed,
            available: e.available,
        }),
        MobjError::eof(e) == (MobjError::UnexpectedEof {
            offset: e.offset,
            needed: e.needed,
            available: e.available,
        }),
        IgError::eof(e) == (IgError::UnexpectedEof {
            offset: e.offset,
            needed: e.needed,
            available: e.available,
        }),
{
}

} // verus!
