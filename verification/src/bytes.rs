//! Searching a byte window for the first occurrence of a byte.
//!
//! The searches themselves are done by the `memchr` crate; this module says
//! what they find, as functions on sequences that the tokenizers' models use.
use vstd::prelude::*;

verus! {

/// `\n`
pub const NEWLINE: u8 = 0x0a;

/// `\r`
pub const CARRIAGE_RETURN: u8 = 0x0d;

/// ` `
pub const SPACE: u8 = 0x20;

/// `!`
pub const BANG: u8 = 0x21;

/// `"`
pub const DOUBLE_QUOTE: u8 = 0x22;

/// `#`
pub const HASH: u8 = 0x23;

/// `$`
pub const DOLLAR: u8 = 0x24;

/// `%`
pub const PERCENT: u8 = 0x25;

/// `&`
pub const AMPERSAND: u8 = 0x26;

/// `'`
pub const SINGLE_QUOTE: u8 = 0x27;

/// `(`
pub const LEFT_PAREN: u8 = 0x28;

/// `)`
pub const RIGHT_PAREN: u8 = 0x29;

/// `*`
pub const STAR: u8 = 0x2a;

/// `+`
pub const PLUS: u8 = 0x2b;

/// `,`
pub const COMMA: u8 = 0x2c;

/// `-`
pub const MINUS: u8 = 0x2d;

/// `.`
pub const DOT: u8 = 0x2e;

/// `/`
pub const SLASH: u8 = 0x2f;

/// `0`
pub const ZERO: u8 = 0x30;

/// `:`
pub const COLON: u8 = 0x3a;

/// `;`
pub const SEMICOLON: u8 = 0x3b;

/// `<`
pub const LESS: u8 = 0x3c;

/// `=`
pub const EQUALS: u8 = 0x3d;

/// `>`
pub const GREATER: u8 = 0x3e;

/// `?`
pub const QUESTION: u8 = 0x3f;

/// `@`
pub const AT: u8 = 0x40;

/// `E`
pub const UPPER_E: u8 = 0x45;

/// `X`
pub const UPPER_X: u8 = 0x58;

/// `[`
pub const LEFT_BRACKET: u8 = 0x5b;

/// `]`
pub const RIGHT_BRACKET: u8 = 0x5d;

/// `` ` ``
pub const BACKTICK: u8 = 0x60;

/// `e`
pub const LOWER_E: u8 = 0x65;

/// `x`
pub const LOWER_X: u8 = 0x78;

/// `|`
pub const PIPE: u8 = 0x7c;

/// `~`
pub const TILDE: u8 = 0x7e;

/// The first index at or after `from` at which `s` holds `needle`, or the
/// length of `s` when there is none.
pub open spec fn find(s: Seq<u8>, from: int, needle: u8) -> int
    decreases s.len() - from,
{
    if from < 0 || from >= s.len() {
        s.len() as int
    } else if s[from] == needle {
        from
    } else {
        find(s, from + 1, needle)
    }
}

/// The first index at or after `from` at which `s` holds `a` or `b`, or the
/// length of `s` when there is none.
pub open spec fn find2(s: Seq<u8>, from: int, a: u8, b: u8) -> int
    decreases s.len() - from,
{
    if from < 0 || from >= s.len() {
        s.len() as int
    } else if s[from] == a || s[from] == b {
        from
    } else {
        find2(s, from + 1, a, b)
    }
}

/// An index with no `needle` before it, which holds `needle` or is the end, is
/// what `find` gives.
pub proof fn lemma_find_unique(s: Seq<u8>, from: int, needle: u8, i: int)
    requires
        0 <= from <= i <= s.len(),
        forall|j: int| from <= j < i ==> s[j] != needle,
        i < s.len() ==> s[i] == needle,
    ensures
        find(s, from, needle) == i,
    decreases i - from,
{
    if from < i {
        lemma_find_unique(s, from + 1, needle, i);
    }
}

/// The two-needle form of [`lemma_find_unique`].
pub proof fn lemma_find2_unique(s: Seq<u8>, from: int, a: u8, b: u8, i: int)
    requires
        0 <= from <= i <= s.len(),
        forall|j: int| from <= j < i ==> s[j] != a && s[j] != b,
        i < s.len() ==> s[i] == a || s[i] == b,
    ensures
        find2(s, from, a, b) == i,
    decreases i - from,
{
    if from < i {
        lemma_find2_unique(s, from + 1, a, b, i);
    }
}

/// `memchr::memchr` returns the index of the first byte of `haystack` equal to
/// `needle`, and `None` when no byte of it is.
pub assume_specification[ memchr::memchr ](needle: u8, haystack: &[u8]) -> (found: Option<usize>)
    ensures
        match found {
            Some(i) => i < haystack@.len() && haystack@[i as int] == needle && forall|j: int|
                0 <= j < i ==> haystack@[j] != needle,
            None => forall|j: int| 0 <= j < haystack@.len() ==> haystack@[j] != needle,
        },
;

/// `memchr::memchr2` returns the index of the first byte of `haystack` equal
/// to `needle1` or to `needle2`, and `None` when no byte of it is.
pub assume_specification[ memchr::memchr2 ](needle1: u8, needle2: u8, haystack: &[u8]) -> (found:
    Option<usize>)
    ensures
        match found {
            Some(i) => i < haystack@.len() && (haystack@[i as int] == needle1 || haystack@[i as int]
                == needle2) && forall|j: int|
                0 <= j < i ==> haystack@[j] != needle1 && haystack@[j] != needle2,
            None => forall|j: int|
                0 <= j < haystack@.len() ==> haystack@[j] != needle1 && haystack@[j] != needle2,
        },
;

/// Where `needle` first occurs in `data`; the length of `data` if nowhere.
pub fn position(needle: u8, data: &[u8]) -> (i: usize)
    ensures
        i == find(data@, 0, needle),
        i <= data@.len(),
        i < data@.len() ==> data@[i as int] == needle,
        forall|j: int| 0 <= j < i ==> data@[j] != needle,
{
    match memchr::memchr(needle, data) {
        Some(i) => {
            proof {
                lemma_find_unique(data@, 0, needle, i as int);
            }
            i
        },
        None => {
            proof {
                lemma_find_unique(data@, 0, needle, data@.len() as int);
            }
            data.len()
        },
    }
}

/// Where `a` or `b` first occurs in `data`; the length of `data` if nowhere.
pub fn position2(a: u8, b: u8, data: &[u8]) -> (i: usize)
    ensures
        i == find2(data@, 0, a, b),
        i <= data@.len(),
        i < data@.len() ==> data@[i as int] == a || data@[i as int] == b,
        forall|j: int| 0 <= j < i ==> data@[j] != a && data@[j] != b,
{
    match memchr::memchr2(a, b, data) {
        Some(i) => {
            proof {
                lemma_find2_unique(data@, 0, a, b, i as int);
            }
            i
        },
        None => {
            proof {
                lemma_find2_unique(data@, 0, a, b, data@.len() as int);
            }
            data.len()
        },
    }
}

/// Whether two windows hold the same bytes.
pub fn equal(a: &[u8], b: &[u8]) -> (same: bool)
    ensures
        same == (a@ == b@),
{
    if a.len() != b.len() {
        return false;
    }
    let mut i: usize = 0;
    while i < a.len()
        invariant
            i <= a@.len(),
            a@.len() == b@.len(),
            forall|j: int| 0 <= j < i ==> a@[j] == b@[j],
        decreases a@.len() - i,
    {
        if a[i] != b[i] {
            return false;
        }
        i += 1;
    }
    assert(a@ =~= b@);
    true
}

} // verus!
