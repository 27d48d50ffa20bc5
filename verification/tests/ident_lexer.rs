use cdl_maze::ident_lexer::{whitespace, IdentifierMatcher, Lexer, LiteralMatcher, Token, TokenType};

#[test]
fn whitespace_parser() {
    assert_eq!(Ok(0), whitespace("hallo"));
    assert_eq!(Ok(3), whitespace("   hallo"));
    assert_eq!(Ok(1), whitespace(" "));
    assert_eq!(Ok(2), whitespace("  "));
}

#[test]
fn whitespace_counts_newlines_too() {
    assert_eq!(Ok(3), whitespace(" \n\tx"));
}

#[test]
fn lexer_lexer_parse_whitespace() {
    let lexer = Lexer::new();
    let res = lexer.lex("        ".to_string());
    assert_eq!(Ok(vec![]), res);
}

#[test]
fn lexer_lexer_parse_identifier() {
    let lexer = Lexer::new();
    assert_eq!(
        Ok(vec![Token { start: 3, end: 8, kind: TokenType::Identifier }]),
        lexer.lex("   hello     ".to_string())
    );
    assert_eq!(
        Ok(vec![
            Token { start: 3, end: 8, kind: TokenType::Identifier },
            Token { start: 12, end: 17, kind: TokenType::Identifier }
        ]),
        lexer.lex("   hello    hello ".to_string())
    );
}

#[test]
fn try_lex_refuses_scripts_it_cannot_get_through() {
    let lexer = Lexer::new();
    assert_eq!(None, lexer.try_lex("hello !"));
    assert_eq!(
        Some(vec![Token { start: 0, end: 1, kind: TokenType::Identifier }]),
        lexer.try_lex("a\n")
    );
}

#[test]
fn literal_matcher() {
    let matcher = LiteralMatcher::new("{");
    assert_eq!(matcher.check("{not"), Ok(1));
    assert_eq!(matcher.check("not"), Ok(0));
    let matcher = LiteralMatcher::new("not");
    assert_eq!(matcher.check("not"), Ok(3));
    assert_eq!(matcher.check("!not"), Ok(0));
    assert_eq!(matcher.check(""), Err("unexpected end of input"));
}

#[test]
fn lexer_identifier_matcher() {
    let i_matcher = IdentifierMatcher::new();
    assert_eq!(Ok(18), i_matcher.check("i-am-an-identifier"));
    assert_eq!(Ok(3), i_matcher.check("not entirely an identifier"));
    assert_eq!(Ok(0), i_matcher.check("!not at all an identifier"));
}

#[test]
fn whitespace_counts_unicode_spaces() {
    assert_eq!(whitespace("\u{3000}\u{85}\u{a0}\t a"), Ok(5));
    assert_eq!(whitespace("\u{200b}a"), Ok(0));
}

#[test]
fn whitespace_agrees_with_std_on_every_char() {
    for u in 0u32..0x11_0000 {
        if let Some(ch) = char::from_u32(u) {
            let s = ch.to_string();
            let expected = if ch.is_whitespace() { 1 } else { 0 };
            assert_eq!(whitespace(&s), Ok(expected), "char {:x}", u);
        }
    }
}
