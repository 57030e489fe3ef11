//! The markup parser: recursive descent over the lexer's token sequence,
//! building one tagged node per element.
//!
//! A node is an opening tag with a name and attributes, then either `/>` (no
//! children) or `>`, children for as long as the next token opens a tag, and a
//! closing tag whose name must equal the opening name. Any missing expected
//! token is a fatal, unrecoverable failure: no error recovery, no partial
//! trees.

use vstd::prelude::*;
use vstd::string::StringExecFns;
use crate::lexer::{Token, TokenView, tokens_view};

verus! {

broadcast use vstd::std_specs::vec::group_vec_axioms;

/// One element of the parsed tag tree: a tag name, an attribute mapping
/// (attribute name to optional value, keys unique, insertion order kept), and
/// the ordered children.
#[derive(Debug, PartialEq, Eq)]
pub struct HTMLNode {
    pub tag: String,
    pub attributes: Vec<(String, Option<String>)>,
    pub children: Vec<HTMLNode>,
}

/// The mathematical value of an [`HTMLNode`].
pub ghost struct NodeView {
    pub tag: Seq<char>,
    pub attributes: Seq<(Seq<char>, Option<Seq<char>>)>,
    pub children: Seq<NodeView>,
}

/// The view of one attribute pair.
pub open spec fn attr_view(a: (String, Option<String>)) -> (Seq<char>, Option<Seq<char>>) {
    (
        a.0@,
        match a.1 {
            Some(v) => Some(v@),
            None => None,
        },
    )
}

/// The views of an attribute list.
pub open spec fn attrs_view(s: Seq<(String, Option<String>)>) -> Seq<
    (Seq<char>, Option<Seq<char>>),
> {
    s.map_values(|a: (String, Option<String>)| attr_view(a))
}

/// The view of a node with no children.
pub open spec fn leaf_node_view(tag: Seq<char>, attributes: Seq<(Seq<char>, Option<Seq<char>>)>)
    -> NodeView {
    NodeView { tag, attributes, children: Seq::empty() }
}

/// The views of a node list.
pub open spec fn children_views(cs: Seq<HTMLNode>) -> Seq<NodeView> {
    Seq::new(cs.len(), |i: int| node_view(cs[i]))
}

/// The mathematical value of a node, children included.
pub open spec fn node_view(n: HTMLNode) -> NodeView
    decreases n,
{
    NodeView {
        tag: n.tag@,
        attributes: attrs_view(n.attributes@),
        children: Seq::new(
            n.children@.len(),
            |i: int|
                if 0 <= i < n.children@.len() {
                    node_view(n.children@[i])
                } else {
                    leaf_node_view(Seq::empty(), Seq::empty())
                },
        ),
    }
}

impl View for HTMLNode {
    type V = NodeView;

    open spec fn view(&self) -> NodeView {
        node_view(*self)
    }
}

/// Why a parse failed.
#[derive(Debug, PartialEq, Eq, Clone, Copy, Structural)]
pub enum ParseError {
    /// The next token was not `<` where a node had to start.
    ExpectedTagStart,
    /// The next token was not `>` where an opening or closing tag had to end.
    ExpectedTagEnd,
    /// The next token was not `</` after a node's children.
    ExpectedClosingTag,
    /// No identifier followed `</`.
    ExpectedClosingName,
    /// The closing tag's name differs from the opening tag's.
    MismatchedClosingTag,
    /// `=` after an attribute name was not followed by a string literal.
    IllegalAttribute,
}

/// The first position at or after `i` whose token is not whitespace.
pub open spec fn skip_ws_tokens(ts: Seq<TokenView>, i: int) -> int
    decreases ts.len() - i,
{
    if i < 0 || i >= ts.len() || !(ts[i] is Whitespace) {
        i
    } else {
        skip_ws_tokens(ts, i + 1)
    }
}

pub broadcast proof fn lemma_skip_ws_tokens_bounds(ts: Seq<TokenView>, i: int)
    requires
        0 <= i,
    ensures
        i <= #[trigger] skip_ws_tokens(ts, i),
        i <= ts.len() ==> skip_ws_tokens(ts, i) <= ts.len(),
    decreases ts.len() - i,
{
    if i < ts.len() && ts[i] is Whitespace {
        lemma_skip_ws_tokens_bounds(ts, i + 1);
    }
}

/// `s` with the value of the first entry named `k` replaced by `v`, or with
/// `(k, v)` appended when no entry is named `k`.
pub open spec fn assoc_set(
    s: Seq<(Seq<char>, Option<Seq<char>>)>,
    k: Seq<char>,
    v: Option<Seq<char>>,
) -> Seq<(Seq<char>, Option<Seq<char>>)>
    decreases s.len(),
{
    if s.len() == 0 {
        seq![(k, v)]
    } else if s[0].0 == k {
        seq![(k, v)] + s.drop_first()
    } else {
        seq![s[0]] + assoc_set(s.drop_first(), k, v)
    }
}

/// The value of the first entry named `k`: `None` when no entry is named `k`,
/// and otherwise the entry's (optional) value.
pub open spec fn assoc_get(s: Seq<(Seq<char>, Option<Seq<char>>)>, k: Seq<char>) -> Option<
    Option<Seq<char>>,
>
    decreases s.len(),
{
    if s.len() == 0 {
        None
    } else if s[0].0 == k {
        Some(s[0].1)
    } else {
        assoc_get(s.drop_first(), k)
    }
}

/// The attribute list parsed from `pos` on, appended to `acc`: identifiers,
/// each optionally followed by `=` and a string literal, with whitespace
/// allowed around each part. An `=` not followed by a string literal is
/// fatal.
pub open spec fn spec_parse_attributes(
    ts: Seq<TokenView>,
    pos: int,
    acc: Seq<(Seq<char>, Option<Seq<char>>)>,
) -> Result<(Seq<(Seq<char>, Option<Seq<char>>)>, int), ParseError>
    decreases ts.len() - pos,
{
    if 0 <= pos < ts.len() && ts[pos] is Identifier {
        let name = ts[pos]->Identifier_0;
        let after_eq_ws = skip_ws_tokens(ts, pos + 1);
        if 0 <= after_eq_ws < ts.len() && ts[after_eq_ws] is Equal {
            if after_eq_ws + 1 < ts.len() && ts[after_eq_ws + 1] is StringLiteral {
                let value = ts[after_eq_ws + 1]->StringLiteral_0;
                let next = skip_ws_tokens(ts, after_eq_ws + 2);
                if pos < next <= ts.len() {
                    spec_parse_attributes(ts, next, assoc_set(acc, name, Some(value)))
                } else {
                    // skipping whitespace never moves backwards or out of
                    // bounds, so this branch is unreachable
                    Err(ParseError::IllegalAttribute)
                }
            } else {
                Err(ParseError::IllegalAttribute)
            }
        } else {
            let next = skip_ws_tokens(ts, after_eq_ws);
            if pos < next <= ts.len() {
                spec_parse_attributes(ts, next, assoc_set(acc, name, None))
            } else {
                // unreachable for the same reason
                Err(ParseError::IllegalAttribute)
            }
        }
    } else {
        Ok((acc, pos))
    }
}

pub broadcast proof fn lemma_spec_parse_attributes_bounds(
    ts: Seq<TokenView>,
    pos: int,
    acc: Seq<(Seq<char>, Option<Seq<char>>)>,
)
    requires
        0 <= pos <= ts.len(),
    ensures
        #[trigger] spec_parse_attributes(ts, pos, acc) matches Ok(r) ==> pos <= r.1 <= ts.len(),
    decreases ts.len() - pos,
{
    if 0 <= pos < ts.len() && ts[pos] is Identifier {
        let name = ts[pos]->Identifier_0;
        let after_eq_ws = skip_ws_tokens(ts, pos + 1);
        lemma_skip_ws_tokens_bounds(ts, pos + 1);
        if 0 <= after_eq_ws < ts.len() && ts[after_eq_ws] is Equal {
            if after_eq_ws + 1 < ts.len() && ts[after_eq_ws + 1] is StringLiteral {
                let value = ts[after_eq_ws + 1]->StringLiteral_0;
                let next = skip_ws_tokens(ts, after_eq_ws + 2);
                lemma_skip_ws_tokens_bounds(ts, after_eq_ws + 2);
                if pos < next <= ts.len() {
                    lemma_spec_parse_attributes_bounds(ts, next, assoc_set(acc, name, Some(value)));
                }
            }
        } else {
            let next = skip_ws_tokens(ts, after_eq_ws);
            lemma_skip_ws_tokens_bounds(ts, after_eq_ws);
            if pos < next <= ts.len() {
                lemma_spec_parse_attributes_bounds(ts, next, assoc_set(acc, name, None));
            }
        }
    }
}

/// The node parsed from `pos` on: `<`, the tag name (empty when the token
/// after `<` is no identifier), the attributes, then either `/>`, or `>`,
/// children while a tag opens, `</`, the same name, and `>`.
pub open spec fn spec_parse(ts: Seq<TokenView>, pos: int) -> Result<(NodeView, int), ParseError>
    decreases ts.len() - pos, 0int,
{
    if !(0 <= pos < ts.len() && ts[pos] is TagStart) {
        Err(ParseError::ExpectedTagStart)
    } else {
        let name_pos = pos + 1;
        let tag = if name_pos < ts.len() && ts[name_pos] is Identifier {
            ts[name_pos]->Identifier_0
        } else {
            Seq::empty()
        };
        let after_name = if name_pos < ts.len() {
            name_pos + 1
        } else {
            name_pos
        };
        let attrs_pos = skip_ws_tokens(ts, after_name);
        match spec_parse_attributes(ts, attrs_pos, Seq::empty()) {
            Err(e) => Err(e),
            Ok((attrs, after_attrs)) => {
                let tag_end_pos = skip_ws_tokens(ts, after_attrs);
                if 0 <= tag_end_pos < ts.len() && ts[tag_end_pos] is TagCloseStart {
                    Ok(
                        (
                            NodeView { tag, attributes: attrs, children: Seq::empty() },
                            tag_end_pos + 1,
                        ),
                    )
                } else if 0 <= tag_end_pos < ts.len() && ts[tag_end_pos] is TagEnd {
                    let kids_pos = skip_ws_tokens(ts, tag_end_pos + 1);
                    if !(pos < kids_pos <= ts.len()) {
                        // skipping whitespace never moves backwards or out of
                        // bounds, so this branch is unreachable
                        Err(ParseError::ExpectedTagStart)
                    } else {
                    match spec_parse_children(ts, kids_pos) {
                        Err(e) => Err(e),
                        Ok((kids, after_kids)) => {
                            if 0 <= after_kids < ts.len() && ts[after_kids] is TagCloseEnd {
                                let close_name_pos = after_kids + 1;
                                if close_name_pos < ts.len() && ts[close_name_pos] is Identifier {
                                    if ts[close_name_pos]->Identifier_0 == tag {
                                        if close_name_pos + 1 < ts.len() && ts[close_name_pos + 1]
                                            is TagEnd {
                                            Ok(
                                                (
                                                    NodeView { tag, attributes: attrs, children: kids },
                                                    close_name_pos + 2,
                                                ),
                                            )
                                        } else {
                                            Err(ParseError::ExpectedTagEnd)
                                        }
                                    } else {
                                        Err(ParseError::MismatchedClosingTag)
                                    }
                                } else {
                                    Err(ParseError::ExpectedClosingName)
                                }
                            } else {
                                Err(ParseError::ExpectedClosingTag)
                            }
                        },
                    }
                    }
                } else {
                    Err(ParseError::ExpectedTagEnd)
                }
            },
        }
    }
}

/// The children parsed from `pos` on: nodes for as long as a tag opens,
/// whitespace skipped after each one.
pub open spec fn spec_parse_children(ts: Seq<TokenView>, pos: int) -> Result<
    (Seq<NodeView>, int),
    ParseError,
>
    decreases ts.len() - pos, 1int,
{
    if 0 <= pos < ts.len() && ts[pos] is TagStart {
        match spec_parse(ts, pos) {
            Err(e) => Err(e),
            Ok((node, after_node)) => {
                if pos < after_node <= ts.len() && after_node <= skip_ws_tokens(ts, after_node)
                    <= ts.len() {
                    let next_pos = skip_ws_tokens(ts, after_node);
                    match spec_parse_children(ts, next_pos) {
                        Err(e) => Err(e),
                        Ok((rest, after_rest)) => Ok((seq![node] + rest, after_rest)),
                    }
                } else {
                    // a successfully parsed node always advances within bounds,
                    // so this branch is unreachable
                    Err(ParseError::ExpectedTagStart)
                }
            },
        }
    } else {
        Ok((Seq::empty(), pos))
    }
}

pub broadcast proof fn lemma_spec_parse_bounds(ts: Seq<TokenView>, pos: int)
    ensures
        #[trigger] spec_parse(ts, pos) matches Ok(r) ==> pos < r.1 <= ts.len(),
    decreases ts.len() - pos, 0int,
{
    if 0 <= pos < ts.len() && ts[pos] is TagStart {
        let name_pos = pos + 1;
        let after_name = if name_pos < ts.len() {
            name_pos + 1
        } else {
            name_pos
        };
        let attrs_pos = skip_ws_tokens(ts, after_name);
        lemma_skip_ws_tokens_bounds(ts, after_name);
        match spec_parse_attributes(ts, attrs_pos, Seq::empty()) {
            Err(_) => {},
            Ok((attrs, after_attrs)) => {
                lemma_spec_parse_attributes_bounds(ts, attrs_pos, Seq::empty());
                let tag_end_pos = skip_ws_tokens(ts, after_attrs);
                lemma_skip_ws_tokens_bounds(ts, after_attrs);
                if 0 <= tag_end_pos < ts.len() && ts[tag_end_pos] is TagCloseStart {
                } else if 0 <= tag_end_pos < ts.len() && ts[tag_end_pos] is TagEnd {
                    let kids_pos = skip_ws_tokens(ts, tag_end_pos + 1);
                    lemma_skip_ws_tokens_bounds(ts, tag_end_pos + 1);
                    lemma_spec_parse_children_bounds(ts, kids_pos);
                }
            },
        }
    }
}

/// The view of an optional attribute value.
pub open spec fn opt_str_view(v: Option<String>) -> Option<Seq<char>> {
    match v {
        Some(s) => Some(s@),
        None => None,
    }
}

proof fn lemma_assoc_set_found(
    s: Seq<(Seq<char>, Option<Seq<char>>)>,
    k: Seq<char>,
    v: Option<Seq<char>>,
    j: int,
)
    requires
        0 <= j < s.len(),
        s[j].0 == k,
        forall|i: int| 0 <= i < j ==> s[i].0 != k,
    ensures
        assoc_set(s, k, v) == s.update(j, (k, v)),
    decreases j,
{
    if j == 0 {
        assert(assoc_set(s, k, v) =~= s.update(0, (k, v)));
    } else {
        lemma_assoc_set_found(s.drop_first(), k, v, j - 1);
        assert(s.drop_first().update(j - 1, (k, v)) =~= s.update(j, (k, v)).drop_first());
        assert(assoc_set(s, k, v) =~= s.update(j, (k, v)));
    }
}

proof fn lemma_assoc_set_missing(
    s: Seq<(Seq<char>, Option<Seq<char>>)>,
    k: Seq<char>,
    v: Option<Seq<char>>,
)
    requires
        forall|i: int| 0 <= i < s.len() ==> s[i].0 != k,
    ensures
        assoc_set(s, k, v) == s.push((k, v)),
    decreases s.len(),
{
    if s.len() == 0 {
        assert(assoc_set(s, k, v) =~= s.push((k, v)));
    } else {
        lemma_assoc_set_missing(s.drop_first(), k, v);
        assert(s.drop_first().push((k, v)) =~= s.push((k, v)).drop_first());
        assert(assoc_set(s, k, v) =~= s.push((k, v)));
    }
}

/// Stores `value` under `name`: the first entry with that name is replaced,
/// and with no such entry the pair is appended, so names stay unique.
fn attrs_set(attributes: &mut Vec<(String, Option<String>)>, name: String, value: Option<String>)
    ensures
        attrs_view(final(attributes)@) == assoc_set(
            attrs_view(old(attributes)@),
            name@,
            opt_str_view(value),
        ),
{
    let ghost s = attrs_view(old(attributes)@);
    let n = attributes.len();
    let mut j: usize = 0;
    while j < n
        invariant
            n == attributes@.len(),
            *attributes == *old(attributes),
            s == attrs_view(attributes@),
            0 <= j <= n,
            forall|i: int| 0 <= i < j ==> s[i].0 != name@,
        decreases n - j,
    {
        if attributes[j].0 == name {
            let ghost namev = name@;
            let ghost valuev = opt_str_view(value);
            proof {
                lemma_assoc_set_found(s, namev, valuev, j as int);
            }
            attributes.set(j, (name, value));
            proof {
                assert(attrs_view(attributes@) =~= s.update(j as int, (namev, valuev)));
            }
            return ;
        }
        j = j + 1;
    }
    let ghost namev = name@;
    let ghost valuev = opt_str_view(value);
    proof {
        lemma_assoc_set_missing(s, namev, valuev);
    }
    attributes.push((name, value));
    proof {
        assert(attrs_view(attributes@) =~= s.push((namev, valuev)));
    }
}

pub broadcast proof fn lemma_spec_parse_children_bounds(ts: Seq<TokenView>, pos: int)
    ensures
        #[trigger] spec_parse_children(ts, pos) matches Ok(r) ==> pos <= r.1 && (pos <= ts.len()
            ==> r.1 <= ts.len()),
    decreases ts.len() - pos, 1int,
{
    if 0 <= pos < ts.len() && ts[pos] is TagStart {
        lemma_spec_parse_bounds(ts, pos);
        match spec_parse(ts, pos) {
            Err(_) => {},
            Ok((node, after_node)) => {
                if pos < after_node <= ts.len() {
                    let next_pos = skip_ws_tokens(ts, after_node);
                    lemma_skip_ws_tokens_bounds(ts, after_node);
                    lemma_spec_parse_children_bounds(ts, next_pos);
                }
            },
        }
    }
}

/// The view of an attribute-parse result.
pub open spec fn attrs_result_view(
    r: Result<(Vec<(String, Option<String>)>, usize), ParseError>,
) -> Result<(Seq<(Seq<char>, Option<Seq<char>>)>, int), ParseError> {
    match r {
        Ok((a, p)) => Ok((attrs_view(a@), p as int)),
        Err(e) => Err(e),
    }
}

/// The view of a parse result.
pub open spec fn parse_result_view(r: Result<(HTMLNode, usize), ParseError>) -> Result<
    (NodeView, int),
    ParseError,
> {
    match r {
        Ok((node, p)) => Ok((node_view(node), p as int)),
        Err(e) => Err(e),
    }
}

/// The first position at or after `position` whose token is not whitespace.
pub fn skip_whitespace(tokens: &Vec<Token>, position: usize) -> (r: usize)
    ensures
        r as int == skip_ws_tokens(tokens_view(tokens@), position as int),
        position <= r,
        position <= tokens@.len() ==> r <= tokens@.len(),
{
    let ghost ts = tokens_view(tokens@);
    let n = tokens.len();
    let mut p = position;
    loop
        invariant
            ts == tokens_view(tokens@),
            n == tokens@.len(),
            position <= p,
            p <= n || p == position,
            skip_ws_tokens(ts, position as int) == skip_ws_tokens(ts, p as int),
        ensures
            p as int == skip_ws_tokens(ts, position as int),
            position <= p,
            p <= n || p == position,
        decreases n - p,
    {
        if p >= n {
            break ;
        }
        let is_ws = match &tokens[p] {
            Token::Whitespace => true,
            _ => false,
        };
        if !is_ws {
            break ;
        }
        p = p + 1;
    }
    p
}

/// Parses zero or more attributes: an identifier, optionally followed by `=`
/// and a string literal, with whitespace allowed around each part; an
/// attribute without `=` is stored with an absent value, and later values
/// for a repeated name replace earlier ones.
pub fn parse_attributes(tokens: &Vec<Token>, position: usize) -> (r: Result<
    (Vec<(String, Option<String>)>, usize),
    ParseError,
>)
    ensures
        attrs_result_view(r) == spec_parse_attributes(
            tokens_view(tokens@),
            position as int,
            Seq::empty(),
        ),
{
    let ghost ts = tokens_view(tokens@);
    let n = tokens.len();
    let mut attributes: Vec<(String, Option<String>)> = Vec::new();
    let mut p = position;
    proof {
        assert(attrs_view(attributes@) =~= Seq::<(Seq<char>, Option<Seq<char>>)>::empty());
    }
    loop
        invariant
            ts == tokens_view(tokens@),
            n == tokens@.len(),
            position <= p,
            p <= n || p == position,
            spec_parse_attributes(ts, position as int, Seq::empty()) == spec_parse_attributes(
                ts,
                p as int,
                attrs_view(attributes@),
            ),
        ensures
            spec_parse_attributes(ts, position as int, Seq::empty()) == Ok::<
                _,
                ParseError,
            >((attrs_view(attributes@), p as int)),
        decreases n - p,
    {
        if p >= n {
            break ;
        }
        let ghost p_in = p as int;
        let ghost acc_in = attrs_view(attributes@);
        let name = match &tokens[p] {
            Token::Identifier(t) => t.clone(),
            _ => { break ; },
        };
        let p2 = skip_whitespace(tokens, p + 1);
        let is_eq = p2 < n && (match &tokens[p2] {
            Token::Equal => true,
            _ => false,
        });
        if is_eq {
            let p3 = p2 + 1;
            if p3 >= n {
                return Err(ParseError::IllegalAttribute);
            }
            let value = match &tokens[p3] {
                Token::StringLiteral(v) => v.clone(),
                _ => { return Err(ParseError::IllegalAttribute) },
            };
            attrs_set(&mut attributes, name, Some(value));
            p = skip_whitespace(tokens, p3 + 1);
        } else {
            attrs_set(&mut attributes, name, None);
            p = skip_whitespace(tokens, p2);
        }
        proof {
            assert(spec_parse_attributes(ts, p_in, acc_in) == spec_parse_attributes(
                ts,
                p as int,
                attrs_view(attributes@),
            ));
        }
    }
    Ok((attributes, p))
}

/// Parses one node: `<`, the tag name (the empty string when the next token
/// is no identifier), attributes, then either `/>` for a childless node, or
/// `>`, children while the next token opens a tag, `</`, an identifier that
/// must equal the opening tag name, and `>`. Returns the node and the
/// position after it; any missing expected token is a fatal failure.
pub fn parse(tokens: &Vec<Token>, position: usize) -> (r: Result<(HTMLNode, usize), ParseError>)
    ensures
        parse_result_view(r) == spec_parse(tokens_view(tokens@), position as int),
    decreases tokens@.len() - position,
{
    let ghost ts = tokens_view(tokens@);
    let n = tokens.len();
    let tag_start_ok = position < n && (match &tokens[position] {
        Token::TagStart => true,
        _ => false,
    });
    if !tag_start_ok {
        return Err(ParseError::ExpectedTagStart);
    }
    let name_pos = position + 1;
    let tag: String;
    let after_name: usize;
    if name_pos < n {
        tag = match &tokens[name_pos] {
            Token::Identifier(t) => t.clone(),
            _ => String::new(),
        };
        after_name = name_pos + 1;
    } else {
        tag = String::new();
        after_name = name_pos;
    }
    let attrs_pos = skip_whitespace(tokens, after_name);
    let (attributes, after_attrs) = match parse_attributes(tokens, attrs_pos) {
        Ok(x) => x,
        Err(e) => { return Err(e) },
    };
    proof {
        lemma_spec_parse_attributes_bounds(ts, attrs_pos as int, Seq::empty());
    }
    let tag_end_pos = skip_whitespace(tokens, after_attrs);
    let self_close = tag_end_pos < n && (match &tokens[tag_end_pos] {
        Token::TagCloseStart => true,
        _ => false,
    });
    if self_close {
        let node = HTMLNode { tag, attributes, children: Vec::new() };
        proof {
            assert(node_view(node).children =~= Seq::<NodeView>::empty());
            assert(node_view(node) =~= spec_parse(ts, position as int)->Ok_0.0);
        }
        return Ok((node, tag_end_pos + 1));
    }
    let tag_end_ok = tag_end_pos < n && (match &tokens[tag_end_pos] {
        Token::TagEnd => true,
        _ => false,
    });
    if !tag_end_ok {
        return Err(ParseError::ExpectedTagEnd);
    }
    let kids_pos = skip_whitespace(tokens, tag_end_pos + 1);
    let mut children: Vec<HTMLNode> = Vec::new();
    let mut p = kids_pos;
    let mut failure: Option<ParseError> = None;
    proof {
        assert(children_views(children@) =~= Seq::<NodeView>::empty());
        match spec_parse_children(ts, kids_pos as int) {
            Ok(r0) => {
                assert(children_views(children@) + r0.0 =~= r0.0);
            },
            Err(_) => {},
        }
    }
    loop
        invariant_except_break
            failure is None,
        invariant
            ts == tokens_view(tokens@),
            n == tokens@.len(),
            position < p,
            kids_pos <= p <= n,
            ({
                match spec_parse_children(ts, p as int) {
                    Ok(r2) => spec_parse_children(ts, kids_pos as int) == Ok::<
                        _,
                        ParseError,
                    >((children_views(children@) + r2.0, r2.1)),
                    Err(e2) => spec_parse_children(ts, kids_pos as int) == Err::<
                        (Seq<NodeView>, int),
                        _,
                    >(e2),
                }
            }),
        ensures
            match failure {
                None => spec_parse_children(ts, kids_pos as int) == Ok::<
                    _,
                    ParseError,
                >((children_views(children@), p as int)),
                Some(e) => spec_parse_children(ts, kids_pos as int) == Err::<
                    (Seq<NodeView>, int),
                    _,
                >(e),
            },
            failure is None ==> position < p <= n,
        decreases n - p,
    {
        let opens = p < n && (match &tokens[p] {
            Token::TagStart => true,
            _ => false,
        });
        if !opens {
            proof {
                assert(children_views(children@) + Seq::<NodeView>::empty() =~= children_views(
                    children@,
                ));
            }
            break ;
        }
        let ghost p_in = p as int;
        let ghost kids_in = children_views(children@);
        let (child, after_child) = match parse(tokens, p) {
            Ok(x) => x,
            Err(e) => {
                failure = Some(e);
                break ;
            },
        };
        proof {
            lemma_spec_parse_bounds(ts, p_in);
        }
        children.push(child);
        p = skip_whitespace(tokens, after_child);
        proof {
            assert(children_views(children@) =~= kids_in.push(
                node_view(children@[children@.len() - 1]),
            ));
            match spec_parse_children(ts, p as int) {
                Ok(r2) => {
                    assert(kids_in.push(node_view(children@[children@.len() - 1])) + r2.0
                        =~= kids_in + (seq![node_view(children@[children@.len() - 1])] + r2.0));
                },
                Err(_) => {},
            }
        }
    }
    if let Some(e) = failure {
        return Err(e);
    }
    let close_ok = p < n && (match &tokens[p] {
        Token::TagCloseEnd => true,
        _ => false,
    });
    if !close_ok {
        return Err(ParseError::ExpectedClosingTag);
    }
    let close_name_pos = p + 1;
    if close_name_pos >= n {
        return Err(ParseError::ExpectedClosingName);
    }
    match &tokens[close_name_pos] {
        Token::Identifier(cname) => {
            if !(*cname == tag) {
                return Err(ParseError::MismatchedClosingTag);
            }
        },
        _ => { return Err(ParseError::ExpectedClosingName) },
    }
    let final_end = close_name_pos + 1;
    let final_ok = final_end < n && (match &tokens[final_end] {
        Token::TagEnd => true,
        _ => false,
    });
    if !final_ok {
        return Err(ParseError::ExpectedTagEnd);
    }
    let node = HTMLNode { tag, attributes, children };
    proof {
        assert(node_view(node).children =~= children_views(node.children@));
        assert(node_view(node) =~= spec_parse(ts, position as int)->Ok_0.0);
    }
    Ok((node, final_end + 1))
}

impl HTMLNode {
    /// The attribute named `name`: absent, or present with its optional
    /// value.
    pub fn get_attribute(&self, name: &str) -> (r: Option<Option<String>>)
        ensures
            match r {
                None => assoc_get(self@.attributes, name@) is None,
                Some(v) => assoc_get(self@.attributes, name@) == Some(opt_str_view(v)),
            },
    {
        let ghost s = attrs_view(self.attributes@);
        let key = String::from_str(name);
        let n = self.attributes.len();
        let mut i: usize = 0;
        proof {
            assert(s.skip(0) =~= s);
        }
        loop
            invariant
                s == attrs_view(self.attributes@),
                n == self.attributes@.len(),
                key@ == name@,
                0 <= i <= n,
                assoc_get(s, name@) == assoc_get(s.skip(i as int), name@),
            ensures
                assoc_get(s, name@) is None,
            decreases n - i,
        {
            if i >= n {
                proof {
                    assert(s.skip(i as int) =~= Seq::<(Seq<char>, Option<Seq<char>>)>::empty());
                }
                break ;
            }
            if self.attributes[i].0 == key {
                proof {
                    assert(s.skip(i as int)[0] == s[i as int]);
                }
                let r = match &self.attributes[i].1 {
                    Some(v) => Some(Some(v.clone())),
                    None => Some(None),
                };
                return r;
            }
            i = i + 1;
            proof {
                assert(s.skip(i - 1).drop_first() =~= s.skip(i as int));
            }
        }
        None
    }
}

} // verus!
