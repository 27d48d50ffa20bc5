use cdl_maze::cdl_lexer::{
    EntityIdMatcher, IdentifierMatcher, Lexer, LiteralMatcher, Matcher, NumberMatcher,
    ReferenceMatcher, StringMatcher, Token, TokenType, WhitespaceMatcher,
};

#[test]
fn identifier_matcher_identifier_matcher() {
    let i_matcher = IdentifierMatcher::new();
    assert_eq!(Ok(18), i_matcher.check("i-am-an-identifier"));
    assert_eq!(Ok(3), i_matcher.check("not entirely an identifier"));
    assert_eq!(Ok(0), i_matcher.check("!not at all an identifier"));
}

#[test]
fn reference_matcher() {
    let i_matcher = ReferenceMatcher::new();
    assert_eq!(Ok(4), i_matcher.check("@ref"));
    assert_eq!(Ok(11), i_matcher.check("@path.match entirely an identifier"));
    assert_eq!(Ok(0), i_matcher.check("identifier"));
}

#[test]
fn entity_id_matcher() {
    let i_matcher = EntityIdMatcher::new();
    assert_eq!(Ok(3), i_matcher.check("#id"));
    assert_eq!(Ok(4), i_matcher.check("#not entirely an identifier"));
    assert_eq!(Ok(0), i_matcher.check("identifier"));
}

#[test]
fn number_matcher() {
    let i_matcher = NumberMatcher::new();
    assert_eq!(Ok(4), i_matcher.check("1234"));
    assert_eq!(Ok(4), i_matcher.check("1234 entirely an identifier"));
    assert_eq!(Ok(4), i_matcher.check("1234qerf"));
    assert_eq!(Ok(0), i_matcher.check("qerf"));
}

#[test]
fn string_matcher() {
    let i_matcher = StringMatcher::new('"');
    assert_eq!(Ok(6), i_matcher.check("\"1234\""));
    assert_eq!(Ok(6), i_matcher.check("\"1234\"        "));
    let i_matcher = StringMatcher::new('\'');
    assert_eq!(Ok(6), i_matcher.check("'1234'"));
    assert_eq!(Ok(6), i_matcher.check("'1234'        "));
}

#[test]
fn whitespace_matcher() {
    let matcher = WhitespaceMatcher::new();
    assert_eq!(Ok((0, None)), matcher.check("hallo"));
    assert_eq!(Ok((3, None)), matcher.check("   hallo"));
    assert_eq!(Ok((1, None)), matcher.check(" "));
    assert_eq!(Ok((2, None)), matcher.check("  "));
    assert_eq!(Ok((1, None)), matcher.check(" \n "));
}

#[test]
fn mod_lexer_parse_whitespace() {
    let lexer = Lexer::new();
    let res = lexer.lex("        ".to_string());
    assert_eq!(Ok(vec![]), res);
}

#[test]
fn lexer_parse_literal() {
    let lexer = Lexer::new();
    let res = lexer.lex("   {     ".to_string());
    assert_eq!(
        Ok(vec![Token {
            start: 3,
            end: 4,
            kind: TokenType::OpenBracket,
        }]),
        res
    );
}

#[test]
fn mod_lexer_parse_identifier() {
    let lexer = Lexer::new();
    assert_eq!(
        Ok(vec![Token {
            start: 3,
            end: 8,
            kind: TokenType::Identifier,
        }]),
        lexer.lex("   hello     ".to_string())
    );
    assert_eq!(
        Ok(vec![
            Token {
                start: 3,
                end: 8,
                kind: TokenType::Identifier,
            },
            Token {
                start: 12,
                end: 17,
                kind: TokenType::Identifier,
            }
        ]),
        lexer.lex("   hello    hello ".to_string())
    );
}

#[test]
fn lexer_parse_identifier_entityid_reference() {
    let lexer = Lexer::new();
    assert_eq!(
        Ok(vec![
            Token { start: 3, end: 8, kind: TokenType::Identifier },
            Token { start: 12, end: 18, kind: TokenType::Reference },
            Token { start: 19, end: 20, kind: TokenType::Hash },
            Token { start: 20, end: 25, kind: TokenType::Identifier },
            Token { start: 26, end: 32, kind: TokenType::Number }
        ]),
        lexer.lex("   hello    @hello #hello 121234".to_string())
    );
}

#[test]
fn lexer_multiline() {
    let lexer = Lexer::new();
    assert_eq!(
        Ok(vec![
            Token { start: 3, end: 8, kind: TokenType::Identifier },
            Token { start: 8, end: 9, kind: TokenType::EOL },
            Token { start: 10, end: 15, kind: TokenType::Identifier }
        ]),
        lexer.lex("   hello\n hello ".to_string())
    );
}

#[test]
fn lexer_parse_identifier_and_literal() {
    let lexer = Lexer::new();
    assert_eq!(
        Ok(vec![
            Token { start: 3, end: 8, kind: TokenType::Identifier },
            Token { start: 9, end: 10, kind: TokenType::OpenBracket },
            Token { start: 10, end: 11, kind: TokenType::CloseBracket }
        ]),
        lexer.lex("   hello {} ".to_string())
    );
}

const LOTS: &str = "value: MAX(survey:Q2,survey:interview_start=max(survey:interview_start))
value: average(score(survey:Q7), @cr.currentPeriodB2b)
thresholds: #82D854 >= 100%, #FFBD5B >= 80%, #FA5263 < 80%
riskValue: IIF(average(SCORE(survey:Q1))<7,'H!',IIF(average(SCORE(survey:Q1))>8,'L',IIF(COUNT(survey:responseid)<1,'U','M')))";

#[test]
fn lexer_lots_gives_a_token_for_every_piece() {
    let lexer = Lexer::new();
    let lexed = lexer.lex(LOTS.to_string());
    assert_eq!(lexed.is_ok(), true);
    let tokens = lexed.unwrap();
    // 33 identifiers, 1 reference, 7 numbers, 4 strings, 3 ends of line
    // and 60 punctuation tokens
    assert_eq!(tokens.len(), 108);
    assert_eq!(tokens.iter().filter(|t| t.kind == TokenType::EOL).count(), 3);
    assert_eq!(tokens.iter().filter(|t| t.kind == TokenType::String).count(), 4);
}

#[test]
fn lexer_lots_timing() {
    let start = std::time::Instant::now();
    let lexer = Lexer::new();
    let _ = lexer.lex(LOTS.to_string());
    let dur = start.elapsed();
    assert_eq!(dur < std::time::Duration::new(0, 500000), true);
}

#[test]
fn lexer_unknown_char() {
    let lexer = Lexer::new();
    assert_eq!(
        Err((
            vec!["Unknown char at pos 9".to_string()],
            vec![
                Token { start: 3, end: 8, kind: TokenType::Identifier },
                Token { start: 11, end: 16, kind: TokenType::Identifier }
            ]
        )),
        lexer.lex("   hello ! hello".to_string())
    );
}

#[test]
fn lexer_reports_each_unknown_char() {
    let lexer = Lexer::new();
    let res = lexer.lex("a ! ? b".to_string());
    assert_eq!(
        Err((
            vec!["Unknown char at pos 2".to_string(), "Unknown char at pos 4".to_string()],
            vec![
                Token { start: 0, end: 1, kind: TokenType::Identifier },
                Token { start: 6, end: 7, kind: TokenType::Identifier }
            ]
        )),
        res
    );
}

#[test]
fn lexer_unterminated_string_overshoots_by_one() {
    let lexer = Lexer::new();
    assert_eq!(
        Ok(vec![Token { start: 0, end: 4, kind: TokenType::String }]),
        lexer.lex("\"ab".to_string())
    );
}

#[test]
fn lexer_counts_bytes_of_non_ascii_identifiers() {
    let lexer = Lexer::new();
    assert_eq!(
        Ok(vec![
            Token { start: 0, end: 6, kind: TokenType::Identifier },
            Token { start: 6, end: 7, kind: TokenType::Colon }
        ]),
        lexer.lex("héllo:".to_string())
    );
}

#[test]
fn try_lex_refuses_a_cut_inside_a_character() {
    let lexer = Lexer::new();
    // the blank counter counts the two-byte no-break space as one byte
    assert!(lexer.try_lex("\u{a0}a").is_none());
    assert!(lexer.try_lex("a b").is_some());
}

#[test]
fn literal_matcher_cdl() {
    let matcher = LiteralMatcher::new("{");
    assert_eq!(matcher.check("{not"), Ok(1));
    assert_eq!(matcher.check("not"), Ok(0));
    assert_eq!(matcher.check(""), Err("unexpected end of input"));
    let matcher = LiteralMatcher::new("ab");
    assert_eq!(matcher.check("é"), Ok(0));
    assert_eq!(matcher.check("€"), Err("unexpected end of input"));
}

#[test]
fn matchers_fail_on_empty_input() {
    assert_eq!(IdentifierMatcher::new().check(""), Err("EOF"));
    assert_eq!(ReferenceMatcher::new().check(""), Err("EOF"));
    assert_eq!(EntityIdMatcher::new().check(""), Err("EOF"));
    assert_eq!(NumberMatcher::new().check(""), Err("EOF"));
    assert_eq!(StringMatcher::new('"').check(""), Err("EOF"));
}
