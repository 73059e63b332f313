//! Quotes escaped by doubling.
//!
//! Inside a quoted CSV field or SQL literal a quote stands for itself when it
//! is written twice. `undouble` is what such content means; `double` is how
//! content is written; `unescape_quotes` rewrites a window in place.
use vstd::prelude::*;

verus! {

/// `s` with every doubled `q` replaced by a single one, pairing from the left.
pub open spec fn undouble(s: Seq<u8>, q: u8) -> Seq<u8>
    decreases s.len(),
{
    if s.len() == 0 {
        Seq::empty()
    } else if s.len() >= 2 && s[0] == q && s[1] == q {
        seq![q] + undouble(s.skip(2), q)
    } else {
        seq![s[0]] + undouble(s.skip(1), q)
    }
}

/// `s` with every `q` written twice.
pub open spec fn double(s: Seq<u8>, q: u8) -> Seq<u8>
    decreases s.len(),
{
    if s.len() == 0 {
        Seq::empty()
    } else if s[0] == q {
        seq![q, q] + double(s.skip(1), q)
    } else {
        seq![s[0]] + double(s.skip(1), q)
    }
}

/// Whether `s` holds two adjacent `q` bytes.
pub open spec fn has_doubled(s: Seq<u8>, q: u8) -> bool {
    exists|k: int| 0 <= k < s.len() - 1 && s[k] == q && #[trigger] s[k + 1] == q
}

/// `s` with the bytes `start..end` rewritten in place to their un-doubled
/// form. What that form leaves free keeps its old bytes.
pub open spec fn unescaped(s: Seq<u8>, start: int, end: int, quote: u8) -> Seq<u8> {
    let content = s.subrange(start, end);
    let plain = undouble(content, quote);
    s.take(start) + plain + content.skip(plain.len() as int) + s.skip(end)
}

/// Un-doubling never lengthens, and shortens exactly when there is a pair.
pub proof fn lemma_undouble_len(s: Seq<u8>, q: u8)
    ensures
        undouble(s, q).len() <= s.len(),
        has_doubled(s, q) <==> undouble(s, q).len() < s.len(),
    decreases s.len(),
{
    if s.len() == 0 {
    } else if s.len() >= 2 && s[0] == q && s[1] == q {
        lemma_undouble_len(s.skip(2), q);
        assert(s[0] == q && s[0int + 1] == q);
    } else {
        let t = s.skip(1);
        lemma_undouble_len(t, q);
        if has_doubled(t, q) {
            let k = choose|k: int| 0 <= k < t.len() - 1 && t[k] == q && #[trigger] t[k + 1] == q;
            assert(s[k + 1] == q && s[(k + 1) + 1] == q);
        }
        if has_doubled(s, q) {
            let k = choose|k: int| 0 <= k < s.len() - 1 && s[k] == q && #[trigger] s[k + 1] == q;
            assert(k >= 1);
            assert(t[k - 1] == q && t[(k - 1) + 1] == q);
        }
    }
}

/// Content without a doubled quote is its own meaning.
pub proof fn lemma_undouble_plain(s: Seq<u8>, q: u8)
    requires
        !has_doubled(s, q),
    ensures
        undouble(s, q) == s,
    decreases s.len(),
{
    if s.len() == 0 {
        assert(undouble(s, q) =~= s);
    } else if s.len() >= 2 && s[0] == q && s[1] == q {
        assert(s[0] == q && s[0int + 1] == q);
    } else {
        let t = s.skip(1);
        if has_doubled(t, q) {
            let k = choose|k: int| 0 <= k < t.len() - 1 && t[k] == q && #[trigger] t[k + 1] == q;
            assert(s[k + 1] == q && s[(k + 1) + 1] == q);
        }
        lemma_undouble_plain(t, q);
        assert(undouble(s, q) =~= s);
    }
}

/// Writing content with its quotes doubled and reading it back gives the
/// content.
pub proof fn lemma_undouble_double(f: Seq<u8>, q: u8)
    ensures
        undouble(double(f, q), q) == f,
    decreases f.len(),
{
    let d = double(f, q);
    if f.len() == 0 {
        assert(undouble(d, q) =~= f);
    } else {
        let rest = f.skip(1);
        lemma_undouble_double(rest, q);
        if f[0] == q {
            assert(d.skip(2) =~= double(rest, q));
        } else {
            assert(d.skip(1) =~= double(rest, q));
        }
        assert(undouble(d, q) =~= f);
    }
}

/// Rewrites `data` in place so that it starts with the un-doubled form of
/// what it held, and returns the length of that form. The bytes behind it
/// keep their old values.
pub fn unescape_quotes(data: &mut [u8], quote: u8) -> (n: usize)
    ensures
        n == undouble(old(data)@, quote).len(),
        final(data)@ == undouble(old(data)@, quote) + old(data)@.skip(n as int),
{
    let ghost orig = data@;
    let len = data.len();
    let mut i: usize = 0;
    let mut j: usize = 0;
    proof {
        assert(orig.skip(0) =~= orig);
        assert(data@.take(0) + undouble(orig, quote) =~= undouble(orig, quote));
    }
    while i < len
        invariant
            j <= i <= len,
            len == orig.len(),
            data@.len() == len,
            undouble(orig, quote) == data@.take(j as int) + undouble(orig.skip(i as int), quote),
            forall|k: int| j <= k < len ==> data@[k] == orig[k],
        decreases len - i,
    {
        let ghost before = data@;
        let ghost tail = orig.skip(i as int);
        let b = data[i];
        let paired = b == quote && i + 1 < len && data[i + 1] == quote;
        data[j] = b;
        proof {
            assert(data@.take(j as int + 1) =~= before.take(j as int) + seq![b]);
            if paired {
                assert(tail.skip(2) =~= orig.skip(i as int + 2));
            } else {
                assert(tail.skip(1) =~= orig.skip(i as int + 1));
            }
        }
        if paired {
            i += 2;
        } else {
            i += 1;
        }
        j += 1;
    }
    proof {
        assert(undouble(orig.skip(i as int), quote) =~= Seq::<u8>::empty());
        assert(data@.take(j as int) =~= undouble(orig, quote));
        assert(data@ =~= undouble(orig, quote) + orig.skip(j as int));
    }
    j
}

} // verus!
