//! What holds of every window that the lexer is shown.
use crate::quotes::{has_doubled, lemma_undouble_plain, unescaped};
use crate::sql::grammar::{closing_quote, is_quote, lex_data, literal_closed};
use vstd::prelude::*;

verus! {

/// The closing quote of a literal stands at or behind where it is looked
/// for, inside the window or at its end.
pub proof fn lemma_closing_quote_bounds(s: Seq<u8>, from: int, quote: u8)
    requires
        0 <= from <= s.len(),
    ensures
        from <= closing_quote(s, from, quote) <= s.len(),
    decreases s.len() - from,
{
    if from < s.len() {
        if s[from] != quote {
            lemma_closing_quote_bounds(s, from + 1, quote);
        } else if from + 1 < s.len() && s[from + 1] == quote {
            lemma_closing_quote_bounds(s, from + 2, quote);
        }
    }
}

/// The lexer rewrites the window only for a literal that holds a doubled
/// quote. Every other token is handed out as the bytes of the input itself.
pub proof fn lemma_tokens_are_verbatim(data: Seq<u8>, eof: bool)
    ensures
        lex_data(data, eof) == data || (data.len() > 0 && is_quote(data[0]) && has_doubled(
            data.subrange(1, closing_quote(data, 1, data[0])),
            data[0],
        )),
{
    if data.len() > 0 && is_quote(data[0]) && literal_closed(data, eof, data[0]) {
        let quote = data[0];
        let close = closing_quote(data, 1, quote);
        lemma_closing_quote_bounds(data, 1, quote);
        let content = data.subrange(1, close);
        if !has_doubled(content, quote) {
            lemma_undouble_plain(content, quote);
            assert(unescaped(data, 1, close, quote) =~= data);
        }
    }
}

} // verus!
