//! Classes of bytes and runs of them.
use vstd::prelude::*;

verus! {

/// ASCII whitespace: space, tab, line feed, form feed, carriage return.
#[verifier::allow_in_spec]
pub fn is_space(b: u8) -> bool
    returns
        b == 0x20 || b == 0x09 || b == 0x0a || b == 0x0c || b == 0x0d,
{
    b == 0x20 || b == 0x09 || b == 0x0a || b == 0x0c || b == 0x0d
}

/// `0` to `9`.
#[verifier::allow_in_spec]
pub fn is_digit(b: u8) -> bool
    returns
        0x30 <= b <= 0x39,
{
    0x30 <= b && b <= 0x39
}

/// `0` to `9`, `a` to `f`, `A` to `F`.
#[verifier::allow_in_spec]
pub fn is_hex_digit(b: u8) -> bool
    returns
        0x30 <= b <= 0x39 || 0x41 <= b <= 0x46 || 0x61 <= b <= 0x66,
{
    (0x30 <= b && b <= 0x39) || (0x41 <= b && b <= 0x46) || (0x61 <= b && b <= 0x66)
}

/// A byte that can start an identifier: an ASCII letter, `_`, or any byte
/// above the ASCII range.
#[verifier::allow_in_spec]
pub fn is_identifier_start(b: u8) -> bool
    returns
        0x41 <= b <= 0x5a || b == 0x5f || 0x61 <= b <= 0x7a || b > 0x7f,
{
    (0x41 <= b && b <= 0x5a) || b == 0x5f || (0x61 <= b && b <= 0x7a) || b > 0x7f
}

/// A byte that can continue an identifier: one that can start it, a digit,
/// or `$`.
#[verifier::allow_in_spec]
pub fn is_identifier_continue(b: u8) -> bool
    returns
        b == 0x24 || 0x30 <= b <= 0x39 || 0x41 <= b <= 0x5a || b == 0x5f || 0x61 <= b <= 0x7a || b
            > 0x7f,
{
    b == 0x24 || (0x30 <= b && b <= 0x39) || (0x41 <= b && b <= 0x5a) || b == 0x5f || (0x61 <= b
        && b <= 0x7a) || b > 0x7f
}

/// The classes of bytes of which the lexer reads runs.
#[derive(Clone, Copy, Debug, PartialEq, Eq)]
pub enum Class {
    Space,
    Digit,
    HexDigit,
    Word,
}

impl Class {
    /// Whether `b` belongs to the class.
    #[verifier::allow_in_spec]
    pub fn contains(self, b: u8) -> bool
        returns
            match self {
                Class::Space => is_space(b),
                Class::Digit => is_digit(b),
                Class::HexDigit => is_hex_digit(b),
                Class::Word => is_identifier_continue(b),
            },
    {
        match self {
            Class::Space => is_space(b),
            Class::Digit => is_digit(b),
            Class::HexDigit => is_hex_digit(b),
            Class::Word => is_identifier_continue(b),
        }
    }
}

/// Where the run of bytes of `class` that starts at `from` ends: the first
/// index at or after `from` whose byte is not of the class, or the length of
/// `s`.
pub open spec fn run_end(s: Seq<u8>, from: int, class: Class) -> int
    decreases s.len() - from,
{
    if from < 0 || from >= s.len() {
        s.len() as int
    } else if class.contains(s[from]) {
        run_end(s, from + 1, class)
    } else {
        from
    }
}

/// An index that only bytes of the class separate from `from`, and whose own
/// byte is not of the class or which is the end, is where the run ends.
pub proof fn lemma_run_end_unique(s: Seq<u8>, from: int, class: Class, end: int)
    requires
        0 <= from <= end <= s.len(),
        forall|j: int| from <= j < end ==> class.contains(#[trigger] s[j]),
        end < s.len() ==> !class.contains(s[end]),
    ensures
        run_end(s, from, class) == end,
    decreases end - from,
{
    if from < end {
        lemma_run_end_unique(s, from + 1, class, end);
    }
}

/// Reads the run of bytes of `class` that starts at `from`, and returns where
/// it ends.
pub fn run_end_of(data: &[u8], from: usize, class: Class) -> (end: usize)
    requires
        from <= data@.len(),
    ensures
        end == run_end(data@, from as int, class),
        from <= end <= data@.len(),
{
    let mut i: usize = from;
    while i < data.len() && class.contains(data[i])
        invariant
            from <= i <= data@.len(),
            forall|j: int| from <= j < i ==> class.contains(#[trigger] data@[j]),
        decreases data@.len() - i,
    {
        i += 1;
    }
    proof {
        lemma_run_end_unique(data@, from as int, class, i as int);
    }
    i
}

} // verus!
