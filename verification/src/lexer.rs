//! The markup lexer: turns a character stream into a flat token sequence.
//!
//! At each cursor position five candidate rules run independently (comment,
//! whitespace run, identifier, string literal, symbol); the rule that advances
//! the cursor furthest wins, earlier rules winning ties. A rule that does not
//! match reports end position zero, which is never a valid end position for a
//! token that consumed input.

use vstd::prelude::*;
use crate::text::{char_is_alphabetic, char_is_alphanumeric, char_is_whitespace, string_from_chars,
    subvec};
use crate::text::{is_alphabetic_char, is_alphanumeric_char, is_whitespace_char};

verus! {

/// An atomic lexical unit of the markup language.
#[derive(Debug, PartialEq, Eq)]
pub enum Token {
    /// `<`
    TagStart,
    /// `>`
    TagEnd,
    /// `/>`
    TagCloseStart,
    /// `</`
    TagCloseEnd,
    /// A run of whitespace characters.
    Whitespace,
    /// `<!-- ... -->`
    Comment,
    /// A quoted value, quotes stripped.
    StringLiteral(String),
    /// A tag or attribute name.
    Identifier(String),
    /// `=`
    Equal,
}

/// The mathematical value of a [`Token`]: the same variants, with string
/// payloads as character sequences.
pub ghost enum TokenView {
    TagStart,
    TagEnd,
    TagCloseStart,
    TagCloseEnd,
    Whitespace,
    Comment,
    StringLiteral(Seq<char>),
    Identifier(Seq<char>),
    Equal,
}

impl View for Token {
    type V = TokenView;

    open spec fn view(&self) -> TokenView {
        match self {
            Token::TagStart => TokenView::TagStart,
            Token::TagEnd => TokenView::TagEnd,
            Token::TagCloseStart => TokenView::TagCloseStart,
            Token::TagCloseEnd => TokenView::TagCloseEnd,
            Token::Whitespace => TokenView::Whitespace,
            Token::Comment => TokenView::Comment,
            Token::StringLiteral(s) => TokenView::StringLiteral(s@),
            Token::Identifier(s) => TokenView::Identifier(s@),
            Token::Equal => TokenView::Equal,
        }
    }
}

/// The views of a token sequence.
pub open spec fn tokens_view(ts: Seq<Token>) -> Seq<TokenView> {
    ts.map_values(|t: Token| t@)
}

/// A cursor over the characters of one document.
#[derive(Debug)]
pub struct Lexer {
    pub position: usize,
    pub characters: Vec<char>,
}

/// `<!--` stands at position `i`.
pub open spec fn comment_open_at(s: Seq<char>, i: int) -> bool {
    &&& 0 <= i
    &&& i + 4 <= s.len()
    &&& s[i] == '<'
    &&& s[i + 1] == '!'
    &&& s[i + 2] == '-'
    &&& s[i + 3] == '-'
}

/// `-->` stands at position `i`.
pub open spec fn comment_close_at(s: Seq<char>, i: int) -> bool {
    &&& 0 <= i
    &&& i + 3 <= s.len()
    &&& s[i] == '-'
    &&& s[i + 1] == '-'
    &&& s[i + 2] == '>'
}

/// Scanning from `i`, the position one past the first closing `-->`, clamped
/// to the end of input when the comment is unterminated.
pub open spec fn comment_scan_end(s: Seq<char>, i: int) -> int
    decreases s.len() - i,
{
    if i >= s.len() {
        s.len() as int
    } else if comment_close_at(s, i) {
        i + 3
    } else {
        comment_scan_end(s, i + 1)
    }
}

/// Where the comment rule ends: just past the closing `-->` when a comment
/// opens at `pos`, and the no-match sentinel zero otherwise.
pub open spec fn comment_rule_end(s: Seq<char>, pos: int) -> int {
    if comment_open_at(s, pos) {
        comment_scan_end(s, pos + 4)
    } else {
        0
    }
}

/// The first position at or after `i` whose character is not whitespace.
pub open spec fn whitespace_end(s: Seq<char>, i: int) -> int
    decreases s.len() - i,
{
    if i < 0 || i >= s.len() || !is_whitespace_char(s[i]) {
        i
    } else {
        whitespace_end(s, i + 1)
    }
}

/// Where the whitespace rule ends: one past a run of one or more whitespace
/// characters starting at `pos`, or the no-match sentinel zero.
pub open spec fn whitespace_rule_end(s: Seq<char>, pos: int) -> int {
    if 0 <= pos < s.len() && is_whitespace_char(s[pos]) {
        whitespace_end(s, pos)
    } else {
        0
    }
}

/// The first position at or after `i` whose character is not alphanumeric.
pub open spec fn alphanumeric_end(s: Seq<char>, i: int) -> int
    decreases s.len() - i,
{
    if i < 0 || i >= s.len() || !is_alphanumeric_char(s[i]) {
        i
    } else {
        alphanumeric_end(s, i + 1)
    }
}

/// Where the identifier rule ends: an alphabetic character followed by a run
/// of alphanumeric characters, or the no-match sentinel zero.
pub open spec fn identifier_rule_end(s: Seq<char>, pos: int) -> int {
    if 0 <= pos < s.len() && is_alphabetic_char(s[pos]) {
        alphanumeric_end(s, pos + 1)
    } else {
        0
    }
}

/// The identifier's characters, empty when the rule does not match.
pub open spec fn identifier_text(s: Seq<char>, pos: int) -> Seq<char> {
    if 0 <= pos < s.len() && is_alphabetic_char(s[pos]) {
        s.subrange(pos, alphanumeric_end(s, pos + 1))
    } else {
        Seq::empty()
    }
}

/// A string literal's quote character.
pub open spec fn is_quote(c: char) -> bool {
    c == '\'' || c == '"'
}

/// The first position at or after `i` holding the quote `q`, or the end of
/// input when the literal is unterminated.
pub open spec fn string_close_pos(s: Seq<char>, q: char, i: int) -> int
    decreases s.len() - i,
{
    if i < 0 || i >= s.len() {
        s.len() as int
    } else if s[i] == q {
        i
    } else {
        string_close_pos(s, q, i + 1)
    }
}

/// Where the string-literal rule ends: one past the closing quote, clamped to
/// the end of input when unterminated, or the no-match sentinel zero.
pub open spec fn string_rule_end(s: Seq<char>, pos: int) -> int {
    if 0 <= pos < s.len() && is_quote(s[pos]) {
        let close = string_close_pos(s, s[pos], pos + 1);
        if close < s.len() {
            close + 1
        } else {
            s.len() as int
        }
    } else {
        0
    }
}

/// The literal's value: everything between the quotes.
pub open spec fn string_text(s: Seq<char>, pos: int) -> Seq<char> {
    if 0 <= pos < s.len() && is_quote(s[pos]) {
        s.subrange(pos + 1, string_close_pos(s, s[pos], pos + 1))
    } else {
        Seq::empty()
    }
}

/// The symbol rule: two-character symbols before one-character symbols, the
/// no-match sentinel `(Whitespace, 0)` otherwise.
pub open spec fn symbol_rule(s: Seq<char>, pos: int) -> (TokenView, int) {
    if 0 <= pos && pos + 2 <= s.len() && s[pos] == '<' && s[pos + 1] == '/' {
        (TokenView::TagCloseEnd, pos + 2)
    } else if 0 <= pos && pos + 2 <= s.len() && s[pos] == '/' && s[pos + 1] == '>' {
        (TokenView::TagCloseStart, pos + 2)
    } else if 0 <= pos < s.len() && s[pos] == '=' {
        (TokenView::Equal, pos + 1)
    } else if 0 <= pos < s.len() && s[pos] == '<' {
        (TokenView::TagStart, pos + 1)
    } else if 0 <= pos < s.len() && s[pos] == '>' {
        (TokenView::TagEnd, pos + 1)
    } else {
        (TokenView::Whitespace, 0)
    }
}

/// One step of the lexer: all five rules run at `pos` and the first rule with
/// the furthest end position wins, in the order comment, whitespace,
/// identifier, string literal, symbol.
pub open spec fn lex_step(s: Seq<char>, pos: int) -> (TokenView, int) {
    let ce = comment_rule_end(s, pos);
    let we = whitespace_rule_end(s, pos);
    let ie = identifier_rule_end(s, pos);
    let se = string_rule_end(s, pos);
    let sym = symbol_rule(s, pos);
    let ye = sym.1;
    if ce >= we && ce >= ie && ce >= se && ce >= ye {
        (TokenView::Comment, ce)
    } else if we >= ie && we >= se && we >= ye {
        (TokenView::Whitespace, we)
    } else if ie >= se && ie >= ye {
        (TokenView::Identifier(identifier_text(s, pos)), ie)
    } else if se >= ye {
        (TokenView::StringLiteral(string_text(s, pos)), se)
    } else {
        sym
    }
}

/// The token sequence produced from position `pos` on: the winning rule's
/// token when it advances the cursor, and otherwise a single whitespace
/// fallback token over one force-advanced character, so that tokenization
/// always terminates.
pub open spec fn spec_tokenize_from(s: Seq<char>, pos: int) -> Seq<TokenView>
    decreases s.len() - pos,
{
    if pos < 0 || pos >= s.len() {
        Seq::empty()
    } else {
        let step = lex_step(s, pos);
        if pos < step.1 <= s.len() {
            seq![step.0] + spec_tokenize_from(s, step.1)
        } else {
            seq![TokenView::Whitespace] + spec_tokenize_from(s, pos + 1)
        }
    }
}

/// The tokens of a whole character sequence.
pub open spec fn spec_tokenize(s: Seq<char>) -> Seq<TokenView> {
    spec_tokenize_from(s, 0)
}

/// The comment rule: matches only if `<!--` stands at the cursor, then scans
/// to just past the first `-->`, clamped to the end of input.
pub fn lex_comment(lexer: &mut Lexer) -> (r: (Token, usize))
    ensures
        *final(lexer) == *old(lexer),
        r.0 == Token::Comment,
        r.1 as int == comment_rule_end(old(lexer).characters@, old(lexer).position as int),
        r.1 <= old(lexer).characters@.len(),
{
    let ghost s = lexer.characters@;
    let n = lexer.characters.len();
    let p = lexer.position;
    if p >= n || n - p < 4 {
        return (Token::Comment, 0);
    }
    if !(lexer.characters[p] == '<' && lexer.characters[p + 1] == '!' && lexer.characters[p + 2]
        == '-' && lexer.characters[p + 3] == '-') {
        return (Token::Comment, 0);
    }
    let mut i = p + 4;
    while i < n && !is_closing_comment(lexer, i)
        invariant
            *lexer == *old(lexer),
            p + 4 <= i <= n,
            n == s.len(),
            s == lexer.characters@,
            comment_scan_end(s, p + 4) == comment_scan_end(s, i as int),
        decreases n - i,
    {
        i = i + 1;
    }
    if i < n {
        (Token::Comment, i + 3)
    } else {
        (Token::Comment, n)
    }
}

/// Whether `-->` stands at `current_position`.
pub fn is_closing_comment(lexer: &mut Lexer, current_position: usize) -> (r: bool)
    ensures
        *final(lexer) == *old(lexer),
        r == comment_close_at(old(lexer).characters@, current_position as int),
{
    let n = lexer.characters.len();
    if current_position >= n || n - current_position < 3 {
        return false;
    }
    lexer.characters[current_position] == '-' && lexer.characters[current_position + 1] == '-'
        && lexer.characters[current_position + 2] == '>'
}

/// The whitespace rule: a run of one or more whitespace characters. With no
/// run at the cursor it reports the no-match sentinel zero.
pub fn lex_whitespace(lexer: &mut Lexer) -> (r: (Token, usize))
    ensures
        *final(lexer) == *old(lexer),
        r.0 == Token::Whitespace,
        r.1 as int == whitespace_rule_end(old(lexer).characters@, old(lexer).position as int),
        r.1 <= old(lexer).characters@.len(),
{
    let ghost s = lexer.characters@;
    let n = lexer.characters.len();
    let p = lexer.position;
    if p >= n {
        return (Token::Whitespace, 0);
    }
    if !char_is_whitespace(lexer.characters[p]) {
        return (Token::Whitespace, 0);
    }
    let mut i = p;
    while i < n && char_is_whitespace(lexer.characters[i])
        invariant
            *lexer == *old(lexer),
            p <= i <= n,
            n == s.len(),
            s == lexer.characters@,
            whitespace_end(s, p as int) == whitespace_end(s, i as int),
        decreases n - i,
    {
        i = i + 1;
    }
    (Token::Whitespace, i)
}

/// The identifier rule: an alphabetic character followed by alphanumeric
/// characters.
pub fn lex_identifier(lexer: &mut Lexer) -> (r: (Token, usize))
    ensures
        *final(lexer) == *old(lexer),
        r.0@ == TokenView::Identifier(
            identifier_text(old(lexer).characters@, old(lexer).position as int),
        ),
        r.1 as int == identifier_rule_end(old(lexer).characters@, old(lexer).position as int),
        r.1 <= old(lexer).characters@.len(),
{
    let ghost s = lexer.characters@;
    let n = lexer.characters.len();
    let p = lexer.position;
    if p >= n || !char_is_alphabetic(lexer.characters[p]) {
        return (Token::Identifier(String::new()), 0);
    }
    let mut i = p + 1;
    while i < n && char_is_alphanumeric(lexer.characters[i])
        invariant
            *lexer == *old(lexer),
            p + 1 <= i <= n,
            n == s.len(),
            s == lexer.characters@,
            alphanumeric_end(s, p + 1) == alphanumeric_end(s, i as int),
        decreases n - i,
    {
        i = i + 1;
    }
    let name = subvec(&lexer.characters, p, i);
    (Token::Identifier(string_from_chars(&name)), i)
}

/// The string-literal rule: a quote, the value up to the matching quote, and
/// the closing quote, clamped to the end of input when unterminated.
pub fn lex_string_literal(lexer: &mut Lexer) -> (r: (Token, usize))
    ensures
        *final(lexer) == *old(lexer),
        r.0@ == TokenView::StringLiteral(
            string_text(old(lexer).characters@, old(lexer).position as int),
        ),
        r.1 as int == string_rule_end(old(lexer).characters@, old(lexer).position as int),
        r.1 <= old(lexer).characters@.len(),
{
    let ghost s = lexer.characters@;
    let n = lexer.characters.len();
    let p = lexer.position;
    if p >= n {
        return (Token::StringLiteral(String::new()), 0);
    }
    let quote = lexer.characters[p];
    if !(quote == '\'' || quote == '"') {
        return (Token::StringLiteral(String::new()), 0);
    }
    let mut i = p + 1;
    while i < n && lexer.characters[i] != quote
        invariant
            *lexer == *old(lexer),
            p + 1 <= i <= n,
            n == s.len(),
            s == lexer.characters@,
            string_close_pos(s, quote, p + 1) == string_close_pos(s, quote, i as int),
        decreases n - i,
    {
        i = i + 1;
    }
    let value = subvec(&lexer.characters, p + 1, i);
    let token = Token::StringLiteral(string_from_chars(&value));
    if i < n {
        (token, i + 1)
    } else {
        (token, n)
    }
}

/// The symbol rule: `</` and `/>` before `=`, `<` and `>`.
pub fn lex_symbols(lexer: &mut Lexer) -> (r: (Token, usize))
    ensures
        *final(lexer) == *old(lexer),
        r.0@ == symbol_rule(old(lexer).characters@, old(lexer).position as int).0,
        r.1 as int == symbol_rule(old(lexer).characters@, old(lexer).position as int).1,
        r.1 <= old(lexer).characters@.len(),
{
    let n = lexer.characters.len();
    let p = lexer.position;
    if p < n && n - p >= 2 {
        let a = lexer.characters[p];
        let b = lexer.characters[p + 1];
        if a == '<' && b == '/' {
            return (Token::TagCloseEnd, p + 2);
        }
        if a == '/' && b == '>' {
            return (Token::TagCloseStart, p + 2);
        }
    }
    if p >= n {
        return (Token::Whitespace, 0);
    }
    let c = lexer.characters[p];
    if c == '=' {
        (Token::Equal, p + 1)
    } else if c == '<' {
        (Token::TagStart, p + 1)
    } else if c == '>' {
        (Token::TagEnd, p + 1)
    } else {
        (Token::Whitespace, 0)
    }
}

/// Tokenization: from the cursor to the end of input, at each position the
/// five rules compete and the furthest-advancing one's token is kept; when no
/// rule advances, one character is consumed as a whitespace fallback so the
/// loop always terminates.
pub fn tokenize(lexer: &mut Lexer) -> (tokens: Vec<Token>)
    ensures
        final(lexer).characters@ == old(lexer).characters@,
        final(lexer).position >= final(lexer).characters@.len(),
        tokens_view(tokens@) == spec_tokenize_from(
            old(lexer).characters@,
            old(lexer).position as int,
        ),
{
    let ghost s = lexer.characters@;
    let ghost p0 = old(lexer).position as int;
    let mut tokens: Vec<Token> = Vec::new();
    while lexer.position < lexer.characters.len()
        invariant
            lexer.characters@ == s,
            tokens_view(tokens@) + spec_tokenize_from(s, lexer.position as int)
                == spec_tokenize_from(s, p0),
        decreases s.len() - lexer.position,
    {
        let ghost p = lexer.position as int;
        let (t0, e0) = lex_comment(lexer);
        let (t1, e1) = lex_whitespace(lexer);
        let (t2, e2) = lex_identifier(lexer);
        let (t3, e3) = lex_string_literal(lexer);
        let (t4, e4) = lex_symbols(lexer);
        let mut best_token = t0;
        let mut best_end = e0;
        if best_end < e1 {
            best_token = t1;
            best_end = e1;
        }
        if best_end < e2 {
            best_token = t2;
            best_end = e2;
        }
        if best_end < e3 {
            best_token = t3;
            best_end = e3;
        }
        if best_end < e4 {
            best_token = t4;
            best_end = e4;
        }
        proof {
            assert(lex_step(s, p) == (best_token@, best_end as int));
        }
        let ghost tokens_before = tokens@;
        if best_end > lexer.position {
            tokens.push(best_token);
            lexer.position = best_end;
        } else {
            tokens.push(Token::Whitespace);
            lexer.position = lexer.position + 1;
        }
        proof {
            assert(tokens_view(tokens@) =~= tokens_view(tokens_before) + seq![
                tokens@[tokens@.len() - 1]@,
            ]);
            assert(tokens_view(tokens@) + spec_tokenize_from(s, lexer.position as int)
                =~= spec_tokenize_from(s, p0));
        }
    }
    proof {
        assert(tokens_view(tokens@) =~= spec_tokenize_from(s, p0));
    }
    tokens
}

} // verus!
