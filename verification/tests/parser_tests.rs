use psudo::error_handler::Errors;
use psudo::lexer::Lexer;
use psudo::parser::{Expression, Parser};
use psudo::tokens::{LiteralType, Token, TokenType};

fn parse(src: &str) -> Result<Expression, Errors> {
    let mut lexer = Lexer::new(src.to_string());
    let tokens = lexer.scan_tokens().unwrap();
    let mut parser = Parser::new(tokens);
    parser.parse()
}

fn num(text: &str, line: usize) -> Expression {
    Expression::Literal(Token::new(
        TokenType::NUMBER,
        text.to_string(),
        Some(LiteralType::Number(text.to_string())),
        line,
    ))
}

fn op(tt: TokenType, text: &str) -> Token {
    Token::new(tt, text.to_string(), None, 1)
}

#[test]
fn empty_input_is_not_a_primary_expression() {
    assert!(matches!(parse(""), Err(Errors::NonPrimaryToken)));
}

#[test]
fn unterminated_group_fails() {
    assert!(matches!(parse("(1 + 2"), Err(Errors::UntermitedGroup)));
}

#[test]
fn multiplication_binds_tighter_than_addition() {
    let tree = parse("1 + 2 * 3").unwrap();
    let expected = Expression::Binary(
        Box::new(num("1", 1)),
        op(TokenType::PLUS, "+"),
        Box::new(Expression::Binary(
            Box::new(num("2", 1)),
            op(TokenType::STAR, "*"),
            Box::new(num("3", 1)),
        )),
    );
    assert_eq!(tree, expected);
}

#[test]
fn equal_precedence_is_left_associative() {
    let tree = parse("1 - 2 - 3").unwrap();
    let expected = Expression::Binary(
        Box::new(Expression::Binary(
            Box::new(num("1", 1)),
            op(TokenType::MINUS, "-"),
            Box::new(num("2", 1)),
        )),
        op(TokenType::MINUS, "-"),
        Box::new(num("3", 1)),
    );
    assert_eq!(tree, expected);
}

#[test]
fn unary_is_right_associative() {
    let tree = parse("- -1").unwrap();
    let expected = Expression::Unary(
        op(TokenType::MINUS, "-"),
        Box::new(Expression::Unary(op(TokenType::MINUS, "-"), Box::new(num("1", 1)))),
    );
    assert_eq!(tree, expected);
}

#[test]
fn grouping_wraps_the_inner_expression() {
    let tree = parse("(1)").unwrap();
    assert_eq!(tree, Expression::Grouping(Box::new(num("1", 1))));
}

#[test]
fn grouping_changes_the_tree_shape() {
    let tree = parse("(1 + 2) * 3").unwrap();
    let expected = Expression::Binary(
        Box::new(Expression::Grouping(Box::new(Expression::Binary(
            Box::new(num("1", 1)),
            op(TokenType::PLUS, "+"),
            Box::new(num("2", 1)),
        )))),
        op(TokenType::STAR, "*"),
        Box::new(num("3", 1)),
    );
    assert_eq!(tree, expected);
}

#[test]
fn comparison_and_equality_levels_nest() {
    let tree = parse("1 < 2 == true").unwrap();
    let expected = Expression::Binary(
        Box::new(Expression::Binary(
            Box::new(num("1", 1)),
            op(TokenType::LESS, "<"),
            Box::new(num("2", 1)),
        )),
        op(TokenType::EqualEqual, "=="),
        Box::new(Expression::Literal(Token::new(
            TokenType::TRUE,
            "true".to_string(),
            None,
            1,
        ))),
    );
    assert_eq!(tree, expected);
}

#[test]
fn keyword_and_string_literals_are_primary() {
    assert_eq!(
        parse("nil").unwrap(),
        Expression::Literal(Token::new(TokenType::NIL, "nil".to_string(), None, 1))
    );
    assert_eq!(
        parse("\"hi\"").unwrap(),
        Expression::Literal(Token::new(
            TokenType::STRING,
            "\"hi\"".to_string(),
            Some(LiteralType::Str("hi".to_string())),
            1,
        ))
    );
}

#[test]
fn any_token_but_eof_closes_a_group() {
    // The grammar consumes one token as the closer without checking it is a
    // right parenthesis; only a missing token (end of input) fails.
    assert!(parse("(1 + 2 3").is_ok());
    assert!(matches!(parse("("), Err(Errors::NonPrimaryToken)));
}

#[test]
fn an_operator_is_not_a_primary_expression() {
    assert!(matches!(parse("+ 1"), Err(Errors::NonPrimaryToken)));
    assert!(matches!(parse("1 +"), Err(Errors::NonPrimaryToken)));
}

#[test]
fn trailing_tokens_are_left_unread() {
    assert!(parse("1 2").is_ok());
}
