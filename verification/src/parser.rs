use vstd::prelude::*;

use crate::error_handler::Errors;
use crate::tokens::{clone_token, views_of_tokens, Token, TokenType, TokenV};

verus! {

// ---------------------------------------------------------------------------
// Expression trees
// ---------------------------------------------------------------------------

/// The expression tree: a binary application, a unary application, a literal
/// token, or a parenthesized grouping. Each non-leaf node exclusively owns its
/// children.
#[derive(Debug, PartialEq)]
pub enum Expression {
    Binary(Box<Expression>, Token, Box<Expression>),
    Unary(Token, Box<Expression>),
    Literal(Token),
    Grouping(Box<Expression>),
}

/// Mathematical image of an expression tree.
pub ghost enum ExpV {
    Binary(Box<ExpV>, TokenV, Box<ExpV>),
    Unary(TokenV, Box<ExpV>),
    Literal(TokenV),
    Grouping(Box<ExpV>),
}

impl Expression {
    /// Mathematical image of the tree, node by node.
    pub open spec fn deep(&self) -> ExpV
        decreases self,
    {
        match self {
            Expression::Binary(l, op, r) => ExpV::Binary(
                Box::new((**l).deep()),
                op@,
                Box::new((**r).deep()),
            ),
            Expression::Unary(op, e) => ExpV::Unary(op@, Box::new((**e).deep())),
            Expression::Literal(t) => ExpV::Literal(t@),
            Expression::Grouping(e) => ExpV::Grouping(Box::new((**e).deep())),
        }
    }
}

impl View for Expression {
    type V = ExpV;

    open spec fn view(&self) -> ExpV {
        self.deep()
    }
}

// ---------------------------------------------------------------------------
// The grammar, as a functional model over token views
// ---------------------------------------------------------------------------

/// Outcome of parsing one grammar level from a position: the tree built and
/// the position just after it, or the error that aborts the parse.
pub ghost enum ParseR {
    Done(ExpV, nat),
    Fail(Errors),
}

pub open spec fn is_eq_op(t: TokenV) -> bool {
    t.token_type == TokenType::BangEqual || t.token_type == TokenType::EqualEqual
}

pub open spec fn is_comp_op(t: TokenV) -> bool {
    ||| t.token_type == TokenType::GreaterEqual
    ||| t.token_type == TokenType::GREATER
    ||| t.token_type == TokenType::LESS
    ||| t.token_type == TokenType::LessEqual
}

pub open spec fn is_term_op(t: TokenV) -> bool {
    t.token_type == TokenType::MINUS || t.token_type == TokenType::PLUS
}

pub open spec fn is_factor_op(t: TokenV) -> bool {
    t.token_type == TokenType::SLASH || t.token_type == TokenType::STAR
}

pub open spec fn is_unary_op(t: TokenV) -> bool {
    t.token_type == TokenType::BANG || t.token_type == TokenType::MINUS
}

pub open spec fn is_literal_start(t: TokenV) -> bool {
    ||| t.token_type == TokenType::TRUE
    ||| t.token_type == TokenType::FALSE
    ||| t.token_type == TokenType::NIL
    ||| t.token_type == TokenType::NUMBER
    ||| t.token_type == TokenType::STRING
}

// In each spec function below, the guards `i <= j` and `j < k` on positions
// returned by a tighter level keep the recursion well-founded; a successful
// parse always moves the position forward, so the guards' failure branches
// are never reached.

/// Entry point of the grammar: the loosest level.
pub open spec fn p_expression(toks: Seq<TokenV>, i: nat) -> ParseR
    decreases toks.len() - i, 10nat,
{
    p_eqality(toks, i)
}

/// `equality : comparison ( ("!=" | "==") comparison )*`
pub open spec fn p_eqality(toks: Seq<TokenV>, i: nat) -> ParseR
    decreases toks.len() - i, 9nat,
{
    match p_comp(toks, i) {
        ParseR::Done(e, j) => if i <= j && j <= toks.len() {
            p_eqality_rest(toks, j, e)
        } else {
            ParseR::Fail(Errors::NonPrimaryToken)
        },
        ParseR::Fail(er) => ParseR::Fail(er),
    }
}

pub open spec fn p_eqality_rest(toks: Seq<TokenV>, j: nat, acc: ExpV) -> ParseR
    decreases toks.len() - j, 8nat,
{
    if j < toks.len() && is_eq_op(toks[j as int]) {
        match p_comp(toks, j + 1) {
            ParseR::Done(r, k) => if j < k && k <= toks.len() {
                p_eqality_rest(
                    toks,
                    k,
                    ExpV::Binary(Box::new(acc), toks[j as int], Box::new(r)),
                )
            } else {
                ParseR::Fail(Errors::NonPrimaryToken)
            },
            ParseR::Fail(er) => ParseR::Fail(er),
        }
    } else {
        ParseR::Done(acc, j)
    }
}

/// `comparison : term ( (">" | ">=" | "<" | "<=") term )*`
pub open spec fn p_comp(toks: Seq<TokenV>, i: nat) -> ParseR
    decreases toks.len() - i, 7nat,
{
    match p_term(toks, i) {
        ParseR::Done(e, j) => if i <= j && j <= toks.len() {
            p_comp_rest(toks, j, e)
        } else {
            ParseR::Fail(Errors::NonPrimaryToken)
        },
        ParseR::Fail(er) => ParseR::Fail(er),
    }
}

pub open spec fn p_comp_rest(toks: Seq<TokenV>, j: nat, acc: ExpV) -> ParseR
    decreases toks.len() - j, 6nat,
{
    if j < toks.len() && is_comp_op(toks[j as int]) {
        match p_term(toks, j + 1) {
            ParseR::Done(r, k) => if j < k && k <= toks.len() {
                p_comp_rest(toks, k, ExpV::Binary(Box::new(acc), toks[j as int], Box::new(r)))
            } else {
                ParseR::Fail(Errors::NonPrimaryToken)
            },
            ParseR::Fail(er) => ParseR::Fail(er),
        }
    } else {
        ParseR::Done(acc, j)
    }
}

/// `term : factor ( ("-" | "+") factor )*`
pub open spec fn p_term(toks: Seq<TokenV>, i: nat) -> ParseR
    decreases toks.len() - i, 5nat,
{
    match p_factor(toks, i) {
        ParseR::Done(e, j) => if i <= j && j <= toks.len() {
            p_term_rest(toks, j, e)
        } else {
            ParseR::Fail(Errors::NonPrimaryToken)
        },
        ParseR::Fail(er) => ParseR::Fail(er),
    }
}

pub open spec fn p_term_rest(toks: Seq<TokenV>, j: nat, acc: ExpV) -> ParseR
    decreases toks.len() - j, 4nat,
{
    if j < toks.len() && is_term_op(toks[j as int]) {
        match p_factor(toks, j + 1) {
            ParseR::Done(r, k) => if j < k && k <= toks.len() {
                p_term_rest(toks, k, ExpV::Binary(Box::new(acc), toks[j as int], Box::new(r)))
            } else {
                ParseR::Fail(Errors::NonPrimaryToken)
            },
            ParseR::Fail(er) => ParseR::Fail(er),
        }
    } else {
        ParseR::Done(acc, j)
    }
}

/// `factor : unary ( ("/" | "*") unary )*`
pub open spec fn p_factor(toks: Seq<TokenV>, i: nat) -> ParseR
    decreases toks.len() - i, 3nat,
{
    match p_unary(toks, i) {
        ParseR::Done(e, j) => if i <= j && j <= toks.len() {
            p_factor_rest(toks, j, e)
        } else {
            ParseR::Fail(Errors::NonPrimaryToken)
        },
        ParseR::Fail(er) => ParseR::Fail(er),
    }
}

pub open spec fn p_factor_rest(toks: Seq<TokenV>, j: nat, acc: ExpV) -> ParseR
    decreases toks.len() - j, 2nat,
{
    if j < toks.len() && is_factor_op(toks[j as int]) {
        match p_unary(toks, j + 1) {
            ParseR::Done(r, k) => if j < k && k <= toks.len() {
                p_factor_rest(toks, k, ExpV::Binary(Box::new(acc), toks[j as int], Box::new(r)))
            } else {
                ParseR::Fail(Errors::NonPrimaryToken)
            },
            ParseR::Fail(er) => ParseR::Fail(er),
        }
    } else {
        ParseR::Done(acc, j)
    }
}

/// `unary : ("!" | "-") unary | primary` — right-associative, the tightest
/// operator level.
pub open spec fn p_unary(toks: Seq<TokenV>, i: nat) -> ParseR
    decreases toks.len() - i, 1nat,
{
    if i < toks.len() && is_unary_op(toks[i as int]) {
        match p_unary(toks, i + 1) {
            ParseR::Done(r, k) => ParseR::Done(
                ExpV::Unary(toks[i as int], Box::new(r)),
                k,
            ),
            ParseR::Fail(er) => ParseR::Fail(er),
        }
    } else {
        p_primary(toks, i)
    }
}

/// `primary`: a keyword literal (`true`, `false`, `nil`), a NUMBER or STRING
/// token, or a parenthesized expression. A group's closing token may be any
/// token at all; only a missing one — no token left, or just the end-of-input
/// marker — is an unterminated group. Anything else fails with
/// NonPrimaryToken.
pub open spec fn p_primary(toks: Seq<TokenV>, i: nat) -> ParseR
    decreases toks.len() - i, 0nat,
{
    if i >= toks.len() {
        ParseR::Fail(Errors::NonPrimaryToken)
    } else {
        let t = toks[i as int];
        if is_literal_start(t) {
            ParseR::Done(ExpV::Literal(t), i + 1)
        } else if t.token_type == TokenType::LeftPara {
            match p_expression(toks, i + 1) {
                ParseR::Done(inner, j) => if j < toks.len() && toks[j as int].token_type
                    != TokenType::EOF {
                    ParseR::Done(ExpV::Grouping(Box::new(inner)), j + 1)
                } else {
                    ParseR::Fail(Errors::UntermitedGroup)
                },
                ParseR::Fail(er) => ParseR::Fail(er),
            }
        } else {
            ParseR::Fail(Errors::NonPrimaryToken)
        }
    }
}


// ---------------------------------------------------------------------------
// Executable operator classification
// ---------------------------------------------------------------------------

fn exec_is_eq_op(t: &Token) -> (r: bool)
    ensures
        r == is_eq_op(t@),
{
    t.token_type == TokenType::BangEqual || t.token_type == TokenType::EqualEqual
}

fn exec_is_comp_op(t: &Token) -> (r: bool)
    ensures
        r == is_comp_op(t@),
{
    t.token_type == TokenType::GreaterEqual || t.token_type == TokenType::GREATER || t.token_type
        == TokenType::LESS || t.token_type == TokenType::LessEqual
}

fn exec_is_term_op(t: &Token) -> (r: bool)
    ensures
        r == is_term_op(t@),
{
    t.token_type == TokenType::MINUS || t.token_type == TokenType::PLUS
}

fn exec_is_factor_op(t: &Token) -> (r: bool)
    ensures
        r == is_factor_op(t@),
{
    t.token_type == TokenType::SLASH || t.token_type == TokenType::STAR
}

fn exec_is_unary_op(t: &Token) -> (r: bool)
    ensures
        r == is_unary_op(t@),
{
    t.token_type == TokenType::BANG || t.token_type == TokenType::MINUS
}

// ---------------------------------------------------------------------------
// The Parser
// ---------------------------------------------------------------------------

/// A recursive-descent parser over an owned, immutable token array with one
/// cursor and one-token lookahead; it never backtracks, and the first
/// malformed construct aborts the parse.
pub struct Parser {
    tokens: Vec<Token>,
    pos: usize,
}

impl Parser {
    /// Views of the tokens being parsed.
    pub closed spec fn toks(&self) -> Seq<TokenV> {
        views_of_tokens(self.tokens@)
    }

    /// The cursor.
    pub closed spec fn at(&self) -> nat {
        self.pos as nat
    }

    /// The cursor never leaves the token array.
    pub closed spec fn wf(&self) -> bool {
        self.pos <= self.tokens@.len()
    }

    pub fn new(tokens: Vec<Token>) -> (r: Parser)
        ensures
            r.wf(),
            r.toks() == views_of_tokens(tokens@),
            r.at() == 0,
    {
        Parser { tokens, pos: 0 }
    }

    /// Parses a single expression starting at the cursor, exactly as the
    /// grammar model describes: the tree it gives, with the cursor left just
    /// after the expression, or its error. Tokens after the expression are
    /// left unread.
    pub fn parse(&mut self) -> (r: Result<Expression, Errors>)
        requires
            old(self).wf(),
        ensures
            final(self).wf(),
            final(self).toks() == old(self).toks(),
            final(self).at() >= old(self).at(),
            match p_expression(old(self).toks(), old(self).at()) {
                ParseR::Done(e, j) => match r {
                    Result::Ok(x) => x@ == e && final(self).at() == j,
                    Result::Err(_) => false,
                },
                ParseR::Fail(er) => r == Result::<Expression, Errors>::Err(er),
            },
    {
        self.expression()
    }

    fn expression(&mut self) -> (r: Result<Expression, Errors>)
        requires
            old(self).wf(),
        ensures
            final(self).wf(),
            final(self).toks() == old(self).toks(),
            final(self).at() >= old(self).at(),
            match p_expression(old(self).toks(), old(self).at()) {
                ParseR::Done(e, j) => match r {
                    Result::Ok(x) => x@ == e && final(self).at() == j && j > old(self).at(),
                    Result::Err(_) => false,
                },
                ParseR::Fail(er) => r == Result::<Expression, Errors>::Err(er),
            },
        decreases self.toks().len() - self.at(), 10nat,
    {
        self.eqality()
    }

    fn eqality(&mut self) -> (r: Result<Expression, Errors>)
        requires
            old(self).wf(),
        ensures
            final(self).wf(),
            final(self).toks() == old(self).toks(),
            final(self).at() >= old(self).at(),
            match p_eqality(old(self).toks(), old(self).at()) {
                ParseR::Done(e, j) => match r {
                    Result::Ok(x) => x@ == e && final(self).at() == j && j > old(self).at(),
                    Result::Err(_) => false,
                },
                ParseR::Fail(er) => r == Result::<Expression, Errors>::Err(er),
            },
        decreases self.toks().len() - self.at(), 9nat,
    {
        let ghost t = self.toks();
        let ghost i0 = self.at();
        let mut exp = match self.comp() {
            Result::Ok(e) => e,
            Result::Err(er) => {
                return Result::Err(er);
            },
        };
        while self.pos < self.tokens.len() && exec_is_eq_op(&self.tokens[self.pos])
            invariant
                self.wf(),
                self.toks() == t,
                t == old(self).toks(),
                i0 == old(self).at(),
                i0 < self.at() <= t.len(),
                p_eqality(t, i0) == p_eqality_rest(t, self.at(), exp@),
            decreases t.len() - self.at(),
        {
            let ghost j = self.at();
            let op = clone_token(&self.tokens[self.pos]);
            self.pos = self.pos + 1;
            let right = match self.comp() {
                Result::Ok(e) => e,
                Result::Err(er) => {
                    return Result::Err(er);
                },
            };
            exp = Expression::Binary(Box::new(exp), op, Box::new(right));
        }
        Result::Ok(exp)
    }

    fn comp(&mut self) -> (r: Result<Expression, Errors>)
        requires
            old(self).wf(),
        ensures
            final(self).wf(),
            final(self).toks() == old(self).toks(),
            final(self).at() >= old(self).at(),
            match p_comp(old(self).toks(), old(self).at()) {
                ParseR::Done(e, j) => match r {
                    Result::Ok(x) => x@ == e && final(self).at() == j && j > old(self).at(),
                    Result::Err(_) => false,
                },
                ParseR::Fail(er) => r == Result::<Expression, Errors>::Err(er),
            },
        decreases self.toks().len() - self.at(), 7nat,
    {
        let ghost t = self.toks();
        let ghost i0 = self.at();
        let mut exp = match self.term() {
            Result::Ok(e) => e,
            Result::Err(er) => {
                return Result::Err(er);
            },
        };
        while self.pos < self.tokens.len() && exec_is_comp_op(&self.tokens[self.pos])
            invariant
                self.wf(),
                self.toks() == t,
                t == old(self).toks(),
                i0 == old(self).at(),
                i0 < self.at() <= t.len(),
                p_comp(t, i0) == p_comp_rest(t, self.at(), exp@),
            decreases t.len() - self.at(),
        {
            let ghost j = self.at();
            let op = clone_token(&self.tokens[self.pos]);
            self.pos = self.pos + 1;
            let right = match self.term() {
                Result::Ok(e) => e,
                Result::Err(er) => {
                    return Result::Err(er);
                },
            };
            exp = Expression::Binary(Box::new(exp), op, Box::new(right));
        }
        Result::Ok(exp)
    }

    fn term(&mut self) -> (r: Result<Expression, Errors>)
        requires
            old(self).wf(),
        ensures
            final(self).wf(),
            final(self).toks() == old(self).toks(),
            final(self).at() >= old(self).at(),
            match p_term(old(self).toks(), old(self).at()) {
                ParseR::Done(e, j) => match r {
                    Result::Ok(x) => x@ == e && final(self).at() == j && j > old(self).at(),
                    Result::Err(_) => false,
                },
                ParseR::Fail(er) => r == Result::<Expression, Errors>::Err(er),
            },
        decreases self.toks().len() - self.at(), 5nat,
    {
        let ghost t = self.toks();
        let ghost i0 = self.at();
        let mut exp = match self.factor() {
            Result::Ok(e) => e,
            Result::Err(er) => {
                return Result::Err(er);
            },
        };
        while self.pos < self.tokens.len() && exec_is_term_op(&self.tokens[self.pos])
            invariant
                self.wf(),
                self.toks() == t,
                t == old(self).toks(),
                i0 == old(self).at(),
                i0 < self.at() <= t.len(),
                p_term(t, i0) == p_term_rest(t, self.at(), exp@),
            decreases t.len() - self.at(),
        {
            let ghost j = self.at();
            let op = clone_token(&self.tokens[self.pos]);
            self.pos = self.pos + 1;
            let right = match self.factor() {
                Result::Ok(e) => e,
                Result::Err(er) => {
                    return Result::Err(er);
                },
            };
            exp = Expression::Binary(Box::new(exp), op, Box::new(right));
        }
        Result::Ok(exp)
    }

    fn factor(&mut self) -> (r: Result<Expression, Errors>)
        requires
            old(self).wf(),
        ensures
            final(self).wf(),
            final(self).toks() == old(self).toks(),
            final(self).at() >= old(self).at(),
            match p_factor(old(self).toks(), old(self).at()) {
                ParseR::Done(e, j) => match r {
                    Result::Ok(x) => x@ == e && final(self).at() == j && j > old(self).at(),
                    Result::Err(_) => false,
                },
                ParseR::Fail(er) => r == Result::<Expression, Errors>::Err(er),
            },
        decreases self.toks().len() - self.at(), 3nat,
    {
        let ghost t = self.toks();
        let ghost i0 = self.at();
        let mut exp = match self.unary() {
            Result::Ok(e) => e,
            Result::Err(er) => {
                return Result::Err(er);
            },
        };
        while self.pos < self.tokens.len() && exec_is_factor_op(&self.tokens[self.pos])
            invariant
                self.wf(),
                self.toks() == t,
                t == old(self).toks(),
                i0 == old(self).at(),
                i0 < self.at() <= t.len(),
                p_factor(t, i0) == p_factor_rest(t, self.at(), exp@),
            decreases t.len() - self.at(),
        {
            let ghost j = self.at();
            let op = clone_token(&self.tokens[self.pos]);
            self.pos = self.pos + 1;
            let right = match self.unary() {
                Result::Ok(e) => e,
                Result::Err(er) => {
                    return Result::Err(er);
                },
            };
            exp = Expression::Binary(Box::new(exp), op, Box::new(right));
        }
        Result::Ok(exp)
    }

    fn unary(&mut self) -> (r: Result<Expression, Errors>)
        requires
            old(self).wf(),
        ensures
            final(self).wf(),
            final(self).toks() == old(self).toks(),
            final(self).at() >= old(self).at(),
            match p_unary(old(self).toks(), old(self).at()) {
                ParseR::Done(e, j) => match r {
                    Result::Ok(x) => x@ == e && final(self).at() == j && j > old(self).at(),
                    Result::Err(_) => false,
                },
                ParseR::Fail(er) => r == Result::<Expression, Errors>::Err(er),
            },
        decreases self.toks().len() - self.at(), 1nat,
    {
        if self.pos < self.tokens.len() && exec_is_unary_op(&self.tokens[self.pos]) {
            let op = clone_token(&self.tokens[self.pos]);
            self.pos = self.pos + 1;
            match self.unary() {
                Result::Ok(r) => Result::Ok(Expression::Unary(op, Box::new(r))),
                Result::Err(er) => Result::Err(er),
            }
        } else {
            self.primary()
        }
    }

    fn primary(&mut self) -> (r: Result<Expression, Errors>)
        requires
            old(self).wf(),
        ensures
            final(self).wf(),
            final(self).toks() == old(self).toks(),
            final(self).at() >= old(self).at(),
            match p_primary(old(self).toks(), old(self).at()) {
                ParseR::Done(e, j) => match r {
                    Result::Ok(x) => x@ == e && final(self).at() == j && j > old(self).at(),
                    Result::Err(_) => false,
                },
                ParseR::Fail(er) => r == Result::<Expression, Errors>::Err(er),
            },
        decreases self.toks().len() - self.at(), 0nat,
    {
        if self.pos >= self.tokens.len() {
            return Result::Err(Errors::NonPrimaryToken);
        }
        let tt = self.tokens[self.pos].token_type;
        if tt == TokenType::TRUE || tt == TokenType::FALSE || tt == TokenType::NIL || tt
            == TokenType::NUMBER || tt == TokenType::STRING {
            let tok = clone_token(&self.tokens[self.pos]);
            self.pos = self.pos + 1;
            Result::Ok(Expression::Literal(tok))
        } else if tt == TokenType::LeftPara {
            self.pos = self.pos + 1;
            match self.expression() {
                Result::Ok(inner) => {
                    if self.pos < self.tokens.len() && !(self.tokens[self.pos].token_type
                        == TokenType::EOF) {
                        self.pos = self.pos + 1;
                        Result::Ok(Expression::Grouping(Box::new(inner)))
                    } else {
                        Result::Err(Errors::UntermitedGroup)
                    }
                },
                Result::Err(er) => Result::Err(er),
            }
        } else {
            Result::Err(Errors::NonPrimaryToken)
        }
    }
}

} // verus!
