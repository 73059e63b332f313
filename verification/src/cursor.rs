//! The line and column of a byte offset in a stream.
//!
//! Lines are counted from 1 and end with `\n`; a column is a byte offset
//! within its line, counted from 1. A carriage return is a byte like any
//! other.
use crate::bytes::NEWLINE;
use vstd::prelude::*;

verus! {

/// How many `\n` bytes `s` holds.
pub open spec fn count_newlines(s: Seq<u8>) -> nat
    decreases s.len(),
{
    if s.len() == 0 {
        0
    } else if s.last() == NEWLINE {
        count_newlines(s.drop_last()) + 1
    } else {
        count_newlines(s.drop_last())
    }
}

/// The index of the last `\n` byte of `s`, or -1 when it holds none.
pub open spec fn last_newline(s: Seq<u8>) -> int
    decreases s.len(),
{
    if s.len() == 0 {
        -1
    } else if s.last() == NEWLINE {
        s.len() - 1
    } else {
        last_newline(s.drop_last())
    }
}

/// The line on which the byte at offset `k` of `input` stands.
pub open spec fn line_at(input: Seq<u8>, k: int) -> int {
    1 + count_newlines(input.take(k)) as int
}

/// The column at which the byte at offset `k` of `input` stands.
pub open spec fn column_at(input: Seq<u8>, k: int) -> int {
    k - last_newline(input.take(k))
}

/// Lexicographic order on (line, column) pairs.
pub open spec fn cursor_le(a: (int, int), b: (int, int)) -> bool {
    a.0 < b.0 || (a.0 == b.0 && a.1 <= b.1)
}

/// The last newline of a sequence lies inside it.
pub proof fn lemma_last_newline_bounds(s: Seq<u8>)
    ensures
        -1 <= last_newline(s) < s.len(),
        count_newlines(s) <= s.len(),
    decreases s.len(),
{
    if s.len() > 0 {
        lemma_last_newline_bounds(s.drop_last());
    }
}

/// Stepping over one byte: a `\n` starts the next line at column 1, any
/// other byte moves one column to the right.
pub proof fn lemma_cursor_step(input: Seq<u8>, k: int)
    requires
        0 <= k < input.len(),
    ensures
        input[k] == NEWLINE ==> line_at(input, k + 1) == line_at(input, k) + 1 && column_at(
            input,
            k + 1,
        ) == 1,
        input[k] != NEWLINE ==> line_at(input, k + 1) == line_at(input, k) && column_at(
            input,
            k + 1,
        ) == column_at(input, k) + 1,
{
    assert(input.take(k + 1).drop_last() =~= input.take(k));
    assert(input.take(k + 1).last() == input[k]);
}

/// The cursor starts at line 1, column 1, and columns are never below 1.
pub proof fn lemma_cursor_origin(input: Seq<u8>, k: int)
    requires
        0 <= k <= input.len(),
    ensures
        line_at(input, 0) == 1,
        column_at(input, 0) == 1,
        1 <= line_at(input, k) <= k + 1,
        1 <= column_at(input, k) <= k + 1,
{
    assert(input.take(0) =~= Seq::<u8>::empty());
    lemma_last_newline_bounds(input.take(k));
}

/// The (line, column) of an offset never decreases, in lexicographic order,
/// as the offset moves forward.
pub proof fn lemma_cursor_monotonic(input: Seq<u8>, j: int, k: int)
    requires
        0 <= j <= k <= input.len(),
    ensures
        cursor_le((line_at(input, j), column_at(input, j)), (line_at(input, k), column_at(input, k))),
        line_at(input, k) - line_at(input, j) <= k - j,
        column_at(input, k) <= column_at(input, j) + (k - j),
    decreases k - j,
{
    if j < k {
        lemma_cursor_monotonic(input, j, k - 1);
        lemma_cursor_step(input, k - 1);
        lemma_cursor_origin(input, j);
    }
}

/// The (line, column) of an offset depends only on the bytes before it.
pub proof fn lemma_cursor_prefix(input: Seq<u8>, longer: Seq<u8>, k: int)
    requires
        0 <= k <= input.len() <= longer.len(),
        longer.take(input.len() as int) == input,
    ensures
        line_at(longer, k) == line_at(input, k),
        column_at(longer, k) == column_at(input, k),
{
    assert(longer.take(k) =~= input.take(k)) by {
        assert forall|i: int| 0 <= i < k implies longer.take(k)[i] == input.take(k)[i] by {
            assert(longer.take(input.len() as int)[i] == longer[i]);
        }
    }
}

/// Where a cursor that stands at `cursor` gets by stepping over `bytes`.
pub open spec fn advance(bytes: Seq<u8>, cursor: (int, int)) -> (int, int)
    decreases bytes.len(),
{
    if bytes.len() == 0 {
        cursor
    } else {
        let before = advance(bytes.drop_last(), cursor);
        if bytes.last() == NEWLINE {
            (before.0 + 1, 1)
        } else {
            (before.0, before.1 + 1)
        }
    }
}

/// Stepping over `bytes` from the end of `s` leads to the end of `s + bytes`.
pub proof fn lemma_advance(s: Seq<u8>, bytes: Seq<u8>)
    ensures
        advance(bytes, (line_at(s, s.len() as int), column_at(s, s.len() as int))) == (
            line_at(s + bytes, (s + bytes).len() as int),
            column_at(s + bytes, (s + bytes).len() as int),
        ),
    decreases bytes.len(),
{
    let whole = s + bytes;
    if bytes.len() == 0 {
        assert(whole =~= s);
    } else {
        let shorter = s + bytes.drop_last();
        lemma_advance(s, bytes.drop_last());
        assert(whole.take(whole.len() - 1) =~= shorter);
        lemma_cursor_prefix(shorter, whole, shorter.len() as int);
        lemma_cursor_step(whole, whole.len() - 1);
    }
}

/// Steps a cursor over `bytes`: each line feed starts the next line at
/// column 1, every other byte moves one column to the right.
pub fn advance_cursor(bytes: &[u8], line: u64, column: usize) -> (cursor: (u64, usize))
    requires
        line + bytes@.len() <= u64::MAX,
        column + bytes@.len() <= usize::MAX,
    ensures
        (cursor.0 as int, cursor.1 as int) == advance(bytes@, (line as int, column as int)),
{
    let len = bytes.len();
    let ghost origin = (line as int, column as int);
    let mut line = line;
    let mut column = column;
    let mut i: usize = 0;
    proof {
        assert(bytes@.take(0) =~= Seq::<u8>::empty());
    }
    while i < len
        invariant
            i <= len,
            len == bytes@.len(),
            line + (len - i) <= u64::MAX,
            column + (len - i) <= usize::MAX,
            (line as int, column as int) == advance(bytes@.take(i as int), origin),
        decreases len - i,
    {
        proof {
            assert(bytes@.take(i as int + 1).drop_last() =~= bytes@.take(i as int));
        }
        if bytes[i] == NEWLINE {
            line += 1;
            column = 1;
        } else {
            column += 1;
        }
        i += 1;
    }
    proof {
        assert(bytes@.take(len as int) =~= bytes@);
    }
    (line, column)
}

} // verus!
