use grace_index::extract::extract_text;
use grace_index::lexer::{lex_whitespace, tokenize, Lexer, Token};
use grace_index::parser::{parse, parse_attributes, ParseError};

fn lex(input: &str) -> Vec<Token> {
    let mut lexer = Lexer { position: 0, characters: input.chars().collect() };
    tokenize(&mut lexer)
}

#[test]
fn html_test() {
    let html = "<html><button class=\"myballs\"/></html>";
    let tokens = lex(html);
    let (dom, consumed) = parse(&tokens, 0).expect("well-formed markup should parse");
    assert_eq!(consumed, tokens.len());
    assert_eq!(dom.tag, "html");
    assert!(dom.attributes.is_empty());
    assert_eq!(dom.children.len(), 1);
    let button = &dom.children[0];
    assert_eq!(button.tag, "button");
    assert!(button.children.is_empty());
    assert_eq!(button.attributes.len(), 1);
    assert_eq!(
        button.get_attribute("class"),
        Some(Some(String::from("myballs")))
    );
}

#[test]
fn lexer_tag_with_attribute() {
    let tokens = lex("<a href=\"x\">");
    assert_eq!(
        tokens,
        vec![
            Token::TagStart,
            Token::Identifier(String::from("a")),
            Token::Whitespace,
            Token::Identifier(String::from("href")),
            Token::Equal,
            Token::StringLiteral(String::from("x")),
            Token::TagEnd,
        ]
    );
}

#[test]
fn lexer_two_character_symbols() {
    assert_eq!(lex("</"), vec![Token::TagCloseEnd]);
    assert_eq!(lex("/>"), vec![Token::TagCloseStart]);
    assert_eq!(lex("="), vec![Token::Equal]);
    assert_eq!(lex(">"), vec![Token::TagEnd]);
}

#[test]
fn lexer_comment() {
    assert_eq!(lex("<!-- hi -->"), vec![Token::Comment]);
    assert_eq!(
        lex("<!-- a --><b>"),
        vec![
            Token::Comment,
            Token::TagStart,
            Token::Identifier(String::from("b")),
            Token::TagEnd,
        ]
    );
}

#[test]
fn lexer_unterminated_comment_clamps() {
    assert_eq!(lex("<!-- never closed"), vec![Token::Comment]);
}

#[test]
fn lexer_unterminated_string_clamps() {
    assert_eq!(lex("'abc"), vec![Token::StringLiteral(String::from("abc"))]);
}

#[test]
fn lexer_single_quoted_string() {
    assert_eq!(lex("'x y'"), vec![Token::StringLiteral(String::from("x y"))]);
}

#[test]
fn lexer_empty_input() {
    assert_eq!(lex(""), Vec::<Token>::new());
}

#[test]
fn lexer_unmatched_character_becomes_whitespace() {
    assert_eq!(lex("&"), vec![Token::Whitespace]);
}

#[test]
fn lexer_whitespace_run_is_one_token() {
    assert_eq!(lex("  \t\n "), vec![Token::Whitespace]);
}

#[test]
fn lexer_whitespace_rule_signals_no_match_with_zero() {
    // no whitespace run at the cursor: end position zero, never the cursor
    let mut lexer = Lexer { position: 1, characters: "ab cd".chars().collect() };
    let (token, end) = lex_whitespace(&mut lexer);
    assert_eq!(token, Token::Whitespace);
    assert_eq!(end, 0);
    // a run at the cursor: its absolute end position
    lexer.position = 2;
    let (_, end) = lex_whitespace(&mut lexer);
    assert_eq!(end, 3);
}

#[test]
fn parser_rejects_mismatched_closing_tag() {
    let tokens = lex("<a></b>");
    assert_eq!(parse(&tokens, 0), Err(ParseError::MismatchedClosingTag));
}

#[test]
fn parser_error_variants() {
    assert_eq!(parse(&lex(""), 0), Err(ParseError::ExpectedTagStart));
    assert_eq!(parse(&lex("a"), 0), Err(ParseError::ExpectedTagStart));
    assert_eq!(parse(&lex("<a"), 0), Err(ParseError::ExpectedTagEnd));
    assert_eq!(parse(&lex("<a>"), 0), Err(ParseError::ExpectedClosingTag));
    assert_eq!(parse(&lex("<a></"), 0), Err(ParseError::ExpectedClosingName));
    assert_eq!(parse(&lex("<a b=>"), 0), Err(ParseError::IllegalAttribute));
}

#[test]
fn parser_attribute_without_value() {
    let tokens = lex("<input checked/>");
    let (node, _) = parse(&tokens, 0).expect("should parse");
    assert_eq!(node.tag, "input");
    assert_eq!(node.get_attribute("checked"), Some(None));
    assert_eq!(node.get_attribute("missing"), None);
}

#[test]
fn parser_repeated_attribute_keeps_last_value() {
    let tokens = lex("<a x=\"1\" x=\"2\"/>");
    let (node, _) = parse(&tokens, 0).expect("should parse");
    assert_eq!(node.attributes.len(), 1);
    assert_eq!(node.get_attribute("x"), Some(Some(String::from("2"))));
}

#[test]
fn parser_nested_children_in_order() {
    let tokens = lex("<ul><li/><li/></ul>");
    let (node, _) = parse(&tokens, 0).expect("should parse");
    assert_eq!(node.tag, "ul");
    assert_eq!(node.children.len(), 2);
    assert_eq!(node.children[0].tag, "li");
    assert_eq!(node.children[1].tag, "li");
}

#[test]
fn parse_attributes_standalone() {
    let tokens = lex("href=\"x\" rel");
    let (attrs, consumed) = parse_attributes(&tokens, 0).expect("should parse");
    assert_eq!(consumed, tokens.len());
    assert_eq!(
        attrs,
        vec![
            (String::from("href"), Some(String::from("x"))),
            (String::from("rel"), None),
        ]
    );
}

#[test]
fn extractor_strips_tags() {
    assert_eq!(extract_text("<p>Hi<br/>there</p>"), "Hithere");
}

#[test]
fn extractor_keeps_whitespace_and_newlines() {
    assert_eq!(extract_text("<p>a b</p>\n<p>c</p>"), "a b\nc");
}

#[test]
fn extractor_tolerates_malformed_markup() {
    assert_eq!(extract_text("a > b < c"), "a  b ");
    assert_eq!(extract_text(""), "");
    assert_eq!(extract_text("<unclosed"), "");
}
