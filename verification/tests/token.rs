use mono_core::cssom::{CssParser, Declaration, QualifiedRule, Selector};
use mono_core::token::{CssToken, CssTokenizer};

fn tokens(css: &str) -> Vec<CssToken> {
    let mut t = CssTokenizer::new(css.to_string());
    let mut v = Vec::new();
    while let Some(tok) = t.next_token() {
        v.push(tok);
    }
    v
}

fn s(x: &str) -> String {
    x.to_string()
}

#[test]
fn tokenizer_reads_a_rule() {
    assert_eq!(
        tokens("p { color: red; }"),
        vec![
            CssToken::Ident(s("p")),
            CssToken::OpenCurly,
            CssToken::Ident(s("color")),
            CssToken::Colon,
            CssToken::Ident(s("red")),
            CssToken::SemiColon,
            CssToken::CloseCurly,
        ]
    );
}

#[test]
fn tokenizer_reads_numbers_hashes_and_keywords() {
    assert_eq!(
        tokens("1.5 40 #fff @media -webkit-x _a"),
        vec![
            CssToken::Number(s("1.5")),
            CssToken::Number(s("40")),
            CssToken::HashToken(s("#fff")),
            CssToken::AtKeyword(s("media")),
            CssToken::Ident(s("-webkit-x")),
            CssToken::Ident(s("_a")),
        ]
    );
}

#[test]
fn tokenizer_reads_strings_and_delimiters() {
    assert_eq!(
        tokens("'a b' , . * ( ) @ 9 \"open"),
        vec![
            CssToken::StringToken(s("a b")),
            CssToken::Delim(','),
            CssToken::Delim('.'),
            CssToken::Delim('*'),
            CssToken::OpenParenthesis,
            CssToken::CloseParenthesis,
            CssToken::Delim('@'),
            CssToken::Number(s("9")),
            CssToken::StringToken(s("open")),
        ]
    );
}

#[test]
fn tokenizer_skips_white_space() {
    assert!(tokens(" \t\r\n ").is_empty());
    let mut t = CssTokenizer::new(s(""));
    assert!(t.next_token().is_none());
    assert!(t.next_token().is_none());
}

fn parse(css: &str) -> Vec<QualifiedRule> {
    CssParser::new(CssTokenizer::new(css.to_string())).parse_stylesheet().rules
}

fn decl(property: &str, value: CssToken) -> Declaration {
    Declaration { property: s(property), value }
}

#[test]
fn parser_ignores_pseudo_classes() {
    assert_eq!(
        parse("a:hover { color: red; }"),
        vec![QualifiedRule {
            selector: Selector::TypeSelector(s("a")),
            declarations: vec![decl("color", CssToken::Ident(s("red")))],
        }]
    );
}

#[test]
fn parser_ignores_at_rules() {
    // The block of the at-rule is read and dropped; its closing brace is then
    // taken for a selector, together with the token after it.
    assert_eq!(
        parse("@media screen { p { color: red; } } h1 { color: blue; }"),
        vec![QualifiedRule {
            selector: Selector::UnknownSelector,
            declarations: vec![decl("color", CssToken::Ident(s("blue")))],
        }]
    );
    assert_eq!(
        parse("@page x { } p { color: red; }"),
        vec![QualifiedRule {
            selector: Selector::TypeSelector(s("p")),
            declarations: vec![decl("color", CssToken::Ident(s("red")))],
        }]
    );
}

#[test]
fn parser_handles_unfinished_rules() {
    // A block that is not closed ends with the text.
    assert_eq!(
        parse("p { color: red"),
        vec![QualifiedRule {
            selector: Selector::TypeSelector(s("p")),
            declarations: vec![decl("color", CssToken::Ident(s("red")))],
        }]
    );
    // A selector without a block gives no rule.
    assert!(parse("p").is_empty());
    // A declaration without a colon is dropped.
    assert_eq!(
        parse("p { color red; margin: 0 }"),
        vec![QualifiedRule {
            selector: Selector::TypeSelector(s("p")),
            declarations: vec![decl("margin", CssToken::Number(s("0")))],
        }]
    );
}

#[test]
fn parser_keeps_the_last_selector_before_the_block() {
    assert_eq!(
        parse("div p { color: red; }"),
        vec![QualifiedRule {
            selector: Selector::TypeSelector(s("p")),
            declarations: vec![decl("color", CssToken::Ident(s("red")))],
        }]
    );
}

#[test]
fn parser_clone_and_position() {
    let mut p = CssParser::new(CssTokenizer::new(s("p { color: red; }")));
    let mut q = p.clone();
    assert_eq!(p.parse_stylesheet(), q.parse_stylesheet());
    // A parser at the end gives an empty style sheet.
    assert!(p.parse_stylesheet().rules.is_empty());
}

#[test]
fn parser_reads_a_stray_delimiter_as_unknown_selector() {
    // The comma is a parse error and reads as the unknown selector; the last
    // selector before the block is kept.
    assert_eq!(
        parse("h1, h2 { color: red; }"),
        vec![QualifiedRule {
            selector: Selector::TypeSelector(s("h2")),
            declarations: vec![decl("color", CssToken::Ident(s("red")))],
        }]
    );
    assert_eq!(
        parse("h1 , { color: red; }"),
        vec![QualifiedRule {
            selector: Selector::UnknownSelector,
            declarations: vec![decl("color", CssToken::Ident(s("red")))],
        }]
    );
}

#[test]
fn parser_reads_a_dot_without_class_as_unknown_selector() {
    assert_eq!(
        parse(". { color: red; }"),
        vec![QualifiedRule {
            selector: Selector::UnknownSelector,
            declarations: vec![decl("color", CssToken::Ident(s("red")))],
        }]
    );
}

#[test]
fn try_parse_stylesheet_refuses_what_parse_stylesheet_cannot_read() {
    let try_parse = |css: &str| CssParser::new(CssTokenizer::new(css.to_string())).try_parse_stylesheet();
    // An at-rule without a block never reaches a `{`.
    assert!(try_parse("@media screen").is_none());
    // A pseudo-class without a block, likewise.
    assert!(try_parse("a:hover").is_none());
    // A declaration that ends after its colon has no value.
    assert!(try_parse("p { color:").is_none());
    let sheet = try_parse("p { color: red; } h1, h2 { color: blue; }").unwrap();
    assert_eq!(sheet.rules, parse("p { color: red; } h1, h2 { color: blue; }"));
    assert_eq!(sheet.rules.len(), 2);
}
