use vstd::prelude::*;

verus! {

/// The closed set of error kinds the Lexer and the Parser can report. Each is
/// terminal for the current scan or parse attempt; none carries recovery
/// state.
#[derive(Debug, Clone, Copy, PartialEq, Eq, Structural)]
pub enum Errors {
    UntermitedGroup,
    UntermitedString,
    UnexpectedChar,
    NonPrimaryToken,
    /// A number literal's text failed to parse as a float. The scanner only
    /// emits well-formed digit runs, so this arises only on the caller's
    /// side, where number texts are parsed (see Interpret::evaluate); it is
    /// part of the closed error set so that such a caller can report it.
    ParseFloatError,
}

impl Errors {
    /// A human-readable line describing the error.
    pub fn message(&self) -> (r: String)
        ensures
            r@ == self.spec_message(),
    {
        match self {
            Errors::UntermitedGroup => "A Group Expression should close with (\")\")".to_owned(),
            Errors::UntermitedString => "A String should close with (\") ".to_owned(),
            Errors::UnexpectedChar => "Unknown Character by the Lexer for found".to_owned(),
            Errors::NonPrimaryToken => "Unknown Token for Primary Exprission".to_owned(),
            Errors::ParseFloatError => "NUMER Token Parse Error".to_owned(),
        }
    }

    pub open spec fn spec_message(&self) -> Seq<char> {
        match self {
            Errors::UntermitedGroup => "A Group Expression should close with (\")\")"@,
            Errors::UntermitedString => "A String should close with (\") "@,
            Errors::UnexpectedChar => "Unknown Character by the Lexer for found"@,
            Errors::NonPrimaryToken => "Unknown Token for Primary Exprission"@,
            Errors::ParseFloatError => "NUMER Token Parse Error"@,
        }
    }
}

} // verus!
