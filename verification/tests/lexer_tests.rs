use psudo::error_handler::Errors;
use psudo::lexer::Lexer;
use psudo::tokens::{LiteralType, Token, TokenType};

fn scan(src: &str) -> Result<Vec<Token>, Errors> {
    let mut lexer = Lexer::new(src.to_string());
    lexer.scan_tokens()
}

fn kinds(src: &str) -> Vec<TokenType> {
    scan(src).unwrap().into_iter().map(|t| t.token_type).collect()
}

#[test]
fn empty_source_gives_only_eof() {
    let toks = scan("").unwrap();
    assert_eq!(toks.len(), 1);
    assert_eq!(toks[0].token_type, TokenType::EOF);
    assert_eq!(toks[0].text, "");
    assert_eq!(toks[0].literal, None);
    assert_eq!(toks[0].line, 1);
}

#[test]
fn single_character_punctuation() {
    assert_eq!(
        kinds("(){},.-+;*"),
        vec![
            TokenType::LeftPara,
            TokenType::RightPara,
            TokenType::LeftBrace,
            TokenType::RightBrace,
            TokenType::COMMA,
            TokenType::DOT,
            TokenType::MINUS,
            TokenType::PLUS,
            TokenType::SEMICOLON,
            TokenType::STAR,
            TokenType::EOF,
        ]
    );
}

#[test]
fn two_character_operators_merge() {
    assert_eq!(
        kinds("!= == <= >="),
        vec![
            TokenType::BangEqual,
            TokenType::EqualEqual,
            TokenType::LessEqual,
            TokenType::GreaterEqual,
            TokenType::EOF,
        ]
    );
}

#[test]
fn unmerged_single_operators() {
    assert_eq!(
        kinds("! = < > /"),
        vec![
            TokenType::BANG,
            TokenType::EQUAL,
            TokenType::LESS,
            TokenType::GREATER,
            TokenType::SLASH,
            TokenType::EOF,
        ]
    );
}

#[test]
fn operator_lexemes_are_source_text() {
    let toks = scan("<= <").unwrap();
    assert_eq!(toks[0].text, "<=");
    assert_eq!(toks[1].text, "<");
}

#[test]
fn line_comment_produces_no_tokens() {
    assert_eq!(kinds("1 // rest is ignored + 2"), vec![TokenType::NUMBER, TokenType::EOF]);
}

#[test]
fn line_comment_stops_at_newline() {
    assert_eq!(
        kinds("1 // note\n2"),
        vec![TokenType::NUMBER, TokenType::NUMBER, TokenType::EOF]
    );
}

#[test]
fn whitespace_is_skipped_and_lines_counted() {
    let toks = scan(" \t\r1\n\n2").unwrap();
    assert_eq!(toks[0].line, 1);
    assert_eq!(toks[1].line, 3);
    assert_eq!(toks[2].token_type, TokenType::EOF);
    assert_eq!(toks[2].line, 3);
}

#[test]
fn string_literal_keeps_exact_text() {
    let toks = scan("\"ab c\"").unwrap();
    assert_eq!(toks[0].token_type, TokenType::STRING);
    assert_eq!(toks[0].text, "\"ab c\"");
    assert_eq!(toks[0].literal, Some(LiteralType::Str("ab c".to_string())));
}

#[test]
fn string_literal_counts_embedded_newlines() {
    let toks = scan("\"a\nb\" 1").unwrap();
    assert_eq!(toks[0].token_type, TokenType::STRING);
    assert_eq!(toks[0].line, 2);
    assert_eq!(toks[1].token_type, TokenType::NUMBER);
    assert_eq!(toks[1].line, 2);
}

#[test]
fn unterminated_string_fails() {
    assert!(matches!(scan("\"abc"), Err(Errors::UntermitedString)));
}

#[test]
fn integer_number_literal() {
    let toks = scan("123").unwrap();
    assert_eq!(toks[0].token_type, TokenType::NUMBER);
    assert_eq!(toks[0].text, "123");
    assert_eq!(toks[0].literal, Some(LiteralType::Number("123".to_string())));
}

#[test]
fn fractional_number_literal() {
    let toks = scan("12.5").unwrap();
    assert_eq!(toks.len(), 2);
    assert_eq!(toks[0].literal, Some(LiteralType::Number("12.5".to_string())));
}

#[test]
fn trailing_dot_is_its_own_token() {
    let toks = scan("12.").unwrap();
    assert_eq!(toks[0].token_type, TokenType::NUMBER);
    assert_eq!(toks[0].literal, Some(LiteralType::Number("12".to_string())));
    assert_eq!(toks[1].token_type, TokenType::DOT);
    assert_eq!(toks[1].text, ".");
    assert_eq!(toks[2].token_type, TokenType::EOF);
}

#[test]
fn dot_before_non_digit_splits_number() {
    assert_eq!(
        kinds("12.x"),
        vec![TokenType::NUMBER, TokenType::DOT, TokenType::IDENTIFIER, TokenType::EOF]
    );
}

#[test]
fn all_keywords_are_classified() {
    let src = "and class else false fun for if nil or print return this true let while";
    assert_eq!(
        kinds(src),
        vec![
            TokenType::AND,
            TokenType::CLASS,
            TokenType::ELSE,
            TokenType::FALSE,
            TokenType::FUN,
            TokenType::FOR,
            TokenType::IF,
            TokenType::NIL,
            TokenType::OR,
            TokenType::PRINT,
            TokenType::RETURN,
            TokenType::THIS,
            TokenType::TRUE,
            TokenType::LET,
            TokenType::WHILE,
            TokenType::EOF,
        ]
    );
}

#[test]
fn identifier_is_not_a_keyword() {
    let toks = scan("foo whilex").unwrap();
    assert_eq!(toks[0].token_type, TokenType::IDENTIFIER);
    assert_eq!(toks[0].text, "foo");
    assert_eq!(toks[1].token_type, TokenType::IDENTIFIER);
    assert_eq!(toks[1].text, "whilex");
}

#[test]
fn underscore_starts_an_identifier_but_does_not_continue_one() {
    let toks = scan("a_b").unwrap();
    assert_eq!(toks[0].token_type, TokenType::IDENTIFIER);
    assert_eq!(toks[0].text, "a");
    assert_eq!(toks[1].token_type, TokenType::IDENTIFIER);
    assert_eq!(toks[1].text, "_b");
    assert_eq!(toks[2].token_type, TokenType::EOF);
}

#[test]
fn unicode_letters_start_identifiers() {
    let toks = scan("héllo").unwrap();
    assert_eq!(toks.len(), 2);
    assert_eq!(toks[0].token_type, TokenType::IDENTIFIER);
    assert_eq!(toks[0].text, "héllo");
}

#[test]
fn unicode_letter_alone_is_an_identifier() {
    let toks = scan("é").unwrap();
    assert_eq!(toks[0].token_type, TokenType::IDENTIFIER);
    assert_eq!(toks[0].text, "é");
}

#[test]
fn digits_continue_identifiers() {
    let toks = scan("a1").unwrap();
    assert_eq!(toks.len(), 2);
    assert_eq!(toks[0].text, "a1");
}

#[test]
fn unexpected_character_fails_the_scan() {
    assert!(matches!(scan("@"), Err(Errors::UnexpectedChar)));
    assert!(matches!(scan("1 + #"), Err(Errors::UnexpectedChar)));
}

#[test]
fn error_messages_are_stable() {
    assert_eq!(
        Errors::UntermitedGroup.message(),
        "A Group Expression should close with (\")\")"
    );
    assert_eq!(Errors::UntermitedString.message(), "A String should close with (\") ");
    assert_eq!(Errors::UnexpectedChar.message(), "Unknown Character by the Lexer for found");
    assert_eq!(Errors::NonPrimaryToken.message(), "Unknown Token for Primary Exprission");
    assert_eq!(Errors::ParseFloatError.message(), "NUMER Token Parse Error");
}
