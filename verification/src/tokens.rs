use vstd::prelude::*;

verus! {

/// The closed set of lexical categories: single- and double-character
/// punctuation, the three literal categories, the reserved keywords, and the
/// end-of-input marker that terminates every token sequence.
#[derive(Debug, Clone, Copy, PartialEq, Eq, Structural)]
pub enum TokenType {
    LeftPara,
    RightPara,
    LeftBrace,
    RightBrace,
    COMMA,
    DOT,
    MINUS,
    PLUS,
    SEMICOLON,
    SLASH,
    STAR,
    BANG,
    BangEqual,
    EQUAL,
    EqualEqual,
    GREATER,
    GreaterEqual,
    LESS,
    LessEqual,
    IDENTIFIER,
    STRING,
    NUMBER,
    AND,
    CLASS,
    ELSE,
    FALSE,
    FUN,
    FOR,
    IF,
    NIL,
    OR,
    PRINT,
    RETURN,
    THIS,
    TRUE,
    LET,
    WHILE,
    EOF,
}

/// The payload a NUMBER or STRING token carries. A string literal keeps the
/// exact text between its quotes; a number literal keeps the exact digit text
/// of its lexeme. Verus does not reason about floating-point values, so the
/// numeric value of that text is produced by the caller of the evaluator, not
/// inside the library.
#[derive(Debug, Clone, PartialEq)]
pub enum LiteralType {
    Str(String),
    Number(String),
}

/// Mathematical image of a literal payload.
pub ghost enum LitV {
    Str(Seq<char>),
    Number(Seq<char>),
}

impl View for LiteralType {
    type V = LitV;

    open spec fn view(&self) -> LitV {
        match self {
            LiteralType::Str(s) => LitV::Str(s@),
            LiteralType::Number(s) => LitV::Number(s@),
        }
    }
}

impl LiteralType {
    /// The literal's text form: the payload text itself.
    pub fn print(&self) -> (r: String)
        ensures
            r@ == self.spec_print(),
    {
        match self {
            LiteralType::Str(x) => x.clone(),
            LiteralType::Number(x) => x.clone(),
        }
    }

    pub open spec fn spec_print(&self) -> Seq<char> {
        match self@ {
            LitV::Str(s) => s,
            LitV::Number(s) => s,
        }
    }
}

/// One lexed token: its category, the exact source substring it was scanned
/// from, the literal payload (for NUMBER and STRING tokens only), and the
/// line it started on.
#[derive(Debug, Clone, PartialEq)]
pub struct Token {
    pub token_type: TokenType,
    pub text: String,
    pub literal: Option<LiteralType>,
    pub line: usize,
}

/// Mathematical image of a token.
pub ghost struct TokenV {
    pub token_type: TokenType,
    pub text: Seq<char>,
    pub literal: Option<LitV>,
    pub line: nat,
}

impl View for Token {
    type V = TokenV;

    open spec fn view(&self) -> TokenV {
        TokenV {
            token_type: self.token_type,
            text: self.text@,
            literal: match self.literal {
                Option::Some(l) => Option::Some(l@),
                Option::None => Option::None,
            },
            line: self.line as nat,
        }
    }
}

impl Token {
    pub fn new(token_type: TokenType, text: String, literal: Option<LiteralType>, line: usize) -> (
        r: Token)
        ensures
            r@ == (TokenV { token_type, text: text@, literal: spec_literal_view(literal), line: line as nat }),
    {
        Token { token_type, text, literal, line }
    }
}

/// A fresh token equal to the given one, field by field.
pub(crate) fn clone_token(t: &Token) -> (r: Token)
    ensures
        r@ == t@,
{
    let literal = match &t.literal {
        Option::Some(LiteralType::Str(s)) => Option::Some(LiteralType::Str(s.clone())),
        Option::Some(LiteralType::Number(s)) => Option::Some(LiteralType::Number(s.clone())),
        Option::None => Option::None,
    };
    Token { token_type: t.token_type, text: t.text.clone(), literal, line: t.line }
}

/// View of an optional literal payload.
pub open spec fn spec_literal_view(l: Option<LiteralType>) -> Option<LitV> {
    match l {
        Option::Some(l) => Option::Some(l@),
        Option::None => Option::None,
    }
}

/// Views of a token sequence, element by element.
pub open spec fn views_of_tokens(ts: Seq<Token>) -> Seq<TokenV> {
    ts.map_values(|t: Token| t@)
}

} // verus!
