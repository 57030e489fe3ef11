//! The text extractor: reduces raw markup to plain text by dropping
//! everything between `<` and `>`.
//!
//! It is an independent, simpler pass than the lexer and parser, tolerant of
//! malformed markup, and it never fails; its output is what gets persisted as
//! a page's searchable text.

use vstd::prelude::*;
use crate::text::{chars_of, string_from_chars};

verus! {

/// The plain text of `s` when the cursor starts inside a tag (`inside`): `<`
/// turns the flag on, `>` turns it off, and every other character encountered
/// while the flag is off is kept.
pub open spec fn spec_extract_from(s: Seq<char>, inside: bool) -> Seq<char>
    decreases s.len(),
{
    if s.len() == 0 {
        Seq::empty()
    } else {
        let c = s[0];
        let rest = s.drop_first();
        if c == '<' {
            spec_extract_from(rest, true)
        } else if c == '>' {
            spec_extract_from(rest, false)
        } else if inside {
            spec_extract_from(rest, true)
        } else {
            seq![c] + spec_extract_from(rest, false)
        }
    }
}

/// The plain text of a whole document, starting outside any tag.
pub open spec fn spec_extract_text(s: Seq<char>) -> Seq<char> {
    spec_extract_from(s, false)
}

/// Strips tags from raw markup: the text between a `<` and the next `>` is
/// dropped, all other characters (whitespace and newlines included) are kept.
pub fn extract_text(markup: &str) -> (r: String)
    ensures
        r@ == spec_extract_text(markup@),
{
    let chars = chars_of(markup);
    let ghost s = markup@;
    let n = chars.len();
    let mut out: Vec<char> = Vec::new();
    let mut inside = false;
    let mut i: usize = 0;
    proof {
        assert(s.skip(0) =~= s);
    }
    while i < n
        invariant
            n == s.len(),
            chars@ == s,
            0 <= i <= n,
            spec_extract_text(s) == out@ + spec_extract_from(s.skip(i as int), inside),
        decreases n - i,
    {
        let c = chars[i];
        proof {
            assert(s.skip(i as int)[0] == s[i as int]);
            assert(s.skip(i as int).drop_first() =~= s.skip(i as int + 1));
        }
        if c == '<' {
            inside = true;
        } else if c == '>' {
            inside = false;
        } else if !inside {
            out.push(c);
        }
        i = i + 1;
        proof {
            assert(out@ + spec_extract_from(s.skip(i as int), inside) =~= spec_extract_text(s));
        }
    }
    proof {
        assert(s.skip(n as int) =~= Seq::<char>::empty());
        assert(out@ =~= spec_extract_text(s));
    }
    string_from_chars(&out)
}

} // verus!
