use vstd::prelude::*;

use crate::parser::{ExpV, Expression};
use crate::tokens::{LitV, LiteralType, Token, TokenType, TokenV};

verus! {

// ---------------------------------------------------------------------------
// IEEE-754 single-precision bit patterns
//
// Verus does not reason about floating-point values, so the library carries
// every number as its IEEE-754 single-precision bit pattern in a u32. Sign,
// comparison, negation and the zero test are exact integer logic on those
// bits and are verified here; the four arithmetic operations and the parsing
// of literal text need real float hardware, and the evaluator hands them to
// its caller (see Interpret::evaluate).
// ---------------------------------------------------------------------------

/// The bit pattern with its sign bit cleared.
pub open spec fn abs_bits(b: u32) -> u32 {
    if b >= 0x8000_0000 {
        (b - 0x8000_0000) as u32
    } else {
        b
    }
}

/// Whether the bits encode a NaN: maximal exponent and a nonzero mantissa.
pub open spec fn is_nan_bits(b: u32) -> bool {
    abs_bits(b) > 0x7F80_0000
}

/// Whether the sign bit is set.
pub open spec fn sign_bit(b: u32) -> bool {
    b >= 0x8000_0000
}

/// The order key of a float: its magnitude bits, negated when the sign bit is
/// set. Non-NaN floats compare exactly as their keys do, and both zeros get
/// key 0.
pub open spec fn float_key(b: u32) -> int {
    if sign_bit(b) {
        -(abs_bits(b) as int)
    } else {
        abs_bits(b) as int
    }
}

/// IEEE equality: false whenever either side is NaN, true for +0 and -0.
pub open spec fn bits_eq(a: u32, b: u32) -> bool {
    !is_nan_bits(a) && !is_nan_bits(b) && float_key(a) == float_key(b)
}

/// IEEE less-than: false whenever either side is NaN.
pub open spec fn bits_lt(a: u32, b: u32) -> bool {
    !is_nan_bits(a) && !is_nan_bits(b) && float_key(a) < float_key(b)
}

/// IEEE less-or-equal: false whenever either side is NaN.
pub open spec fn bits_le(a: u32, b: u32) -> bool {
    !is_nan_bits(a) && !is_nan_bits(b) && float_key(a) <= float_key(b)
}

/// IEEE negation: the sign bit flipped, whatever the value.
pub open spec fn neg_bits(b: u32) -> u32 {
    if b >= 0x8000_0000 {
        (b - 0x8000_0000) as u32
    } else {
        (b + 0x8000_0000) as u32
    }
}

/// The numeric truth rule: both zeros are false, every other bit pattern
/// (NaN included) is true.
pub open spec fn truthy_bits(b: u32) -> bool {
    abs_bits(b) != 0
}

/// The bits of 1.0, the numeric image of `true`.
pub const TRUE_BITS: u32 = 0x3F80_0000;

/// The bits of 0.0, the numeric image of `false`.
pub const FALSE_BITS: u32 = 0;

pub fn f32_bits_eq(a: u32, b: u32) -> (r: bool)
    ensures
        r == bits_eq(a, b),
{
    let ka = exec_float_key(a);
    let kb = exec_float_key(b);
    !exec_is_nan(a) && !exec_is_nan(b) && ka == kb
}

pub fn f32_bits_lt(a: u32, b: u32) -> (r: bool)
    ensures
        r == bits_lt(a, b),
{
    let ka = exec_float_key(a);
    let kb = exec_float_key(b);
    !exec_is_nan(a) && !exec_is_nan(b) && ka < kb
}

pub fn f32_bits_le(a: u32, b: u32) -> (r: bool)
    ensures
        r == bits_le(a, b),
{
    let ka = exec_float_key(a);
    let kb = exec_float_key(b);
    !exec_is_nan(a) && !exec_is_nan(b) && ka <= kb
}

pub fn f32_neg_bits(b: u32) -> (r: u32)
    ensures
        r == neg_bits(b),
{
    if b >= 0x8000_0000 {
        b - 0x8000_0000
    } else {
        b + 0x8000_0000
    }
}

pub fn f32_truthy_bits(b: u32) -> (r: bool)
    ensures
        r == truthy_bits(b),
{
    exec_abs_bits(b) != 0
}

fn exec_abs_bits(b: u32) -> (r: u32)
    ensures
        r == abs_bits(b),
{
    if b >= 0x8000_0000 {
        b - 0x8000_0000
    } else {
        b
    }
}

fn exec_is_nan(b: u32) -> (r: bool)
    ensures
        r == is_nan_bits(b),
{
    exec_abs_bits(b) > 0x7F80_0000
}

fn exec_float_key(b: u32) -> (r: i64)
    ensures
        r as int == float_key(b),
{
    let m = exec_abs_bits(b) as i64;
    if b >= 0x8000_0000 {
        -m
    } else {
        m
    }
}

// ---------------------------------------------------------------------------
// Runtime values
// ---------------------------------------------------------------------------

/// A runtime value: a number (as IEEE-754 single-precision bits), a boolean,
/// a string, or nil.
#[derive(Debug, Clone, PartialEq)]
pub enum DataTypes {
    Number(u32),
    Bool(bool),
    Str(String),
    Nil,
}

/// Mathematical image of a runtime value.
pub ghost enum DataV {
    Number(u32),
    Bool(bool),
    Str(Seq<char>),
    Nil,
}

impl View for DataTypes {
    type V = DataV;

    open spec fn view(&self) -> DataV {
        match self {
            DataTypes::Number(b) => DataV::Number(*b),
            DataTypes::Bool(b) => DataV::Bool(*b),
            DataTypes::Str(s) => DataV::Str(s@),
            DataTypes::Nil => DataV::Nil,
        }
    }
}

/// The float projection of a value: a number itself; a boolean as 1.0 or
/// 0.0; nothing for strings and nil, which have none.
pub open spec fn spec_num_proj(v: DataV) -> Option<u32> {
    match v {
        DataV::Number(b) => Option::Some(b),
        DataV::Bool(b) => Option::Some(
            if b {
                TRUE_BITS
            } else {
                FALSE_BITS
            },
        ),
        DataV::Str(_) => Option::None,
        DataV::Nil => Option::None,
    }
}

/// The boolean projection of a value: a boolean itself; a number by the
/// truth rule (zero is false, anything else true); nothing for strings and
/// nil.
pub open spec fn spec_bool_proj(v: DataV) -> Option<bool> {
    match v {
        DataV::Bool(b) => Option::Some(b),
        DataV::Number(b) => Option::Some(truthy_bits(b)),
        DataV::Str(_) => Option::None,
        DataV::Nil => Option::None,
    }
}

impl DataTypes {
    /// The float projection, as executable code.
    pub fn as_number_bits(&self) -> (r: Option<u32>)
        ensures
            r == spec_num_proj(self@),
    {
        match self {
            DataTypes::Number(b) => Option::Some(*b),
            DataTypes::Bool(b) => Option::Some(
                if *b {
                    0x3F80_0000
                } else {
                    0
                },
            ),
            DataTypes::Str(_) => Option::None,
            DataTypes::Nil => Option::None,
        }
    }

    /// The boolean projection, as executable code.
    pub fn as_bool(&self) -> (r: Option<bool>)
        ensures
            r == spec_bool_proj(self@),
    {
        match self {
            DataTypes::Bool(b) => Option::Some(*b),
            DataTypes::Number(b) => Option::Some(f32_truthy_bits(*b)),
            DataTypes::Str(_) => Option::None,
            DataTypes::Nil => Option::None,
        }
    }
}


// ---------------------------------------------------------------------------
// The evaluation protocol
// ---------------------------------------------------------------------------

/// One floating-point primitive the evaluator needs from its caller: parsing
/// a number literal's text to single-precision bits, or one arithmetic
/// operation on two bit patterns.
#[derive(Debug, Clone, PartialEq)]
pub enum FloatOp {
    Parse(String),
    Add(u32, u32),
    Sub(u32, u32),
    Mul(u32, u32),
    Div(u32, u32),
}

/// Mathematical image of a requested primitive.
pub ghost enum FloatOpV {
    Parse(Seq<char>),
    Add(u32, u32),
    Sub(u32, u32),
    Mul(u32, u32),
    Div(u32, u32),
}

impl View for FloatOp {
    type V = FloatOpV;

    open spec fn view(&self) -> FloatOpV {
        match self {
            FloatOp::Parse(s) => FloatOpV::Parse(s@),
            FloatOp::Add(a, b) => FloatOpV::Add(*a, *b),
            FloatOp::Sub(a, b) => FloatOpV::Sub(*a, *b),
            FloatOp::Mul(a, b) => FloatOpV::Mul(*a, *b),
            FloatOp::Div(a, b) => FloatOpV::Div(*a, *b),
        }
    }
}

/// What one round of evaluation reports: the expression's value; the next
/// floating-point primitive the caller must compute and append to the feeds;
/// or that the tree applies an operator to operands outside the defined
/// language (where the reference semantics aborts).
#[derive(Debug, Clone, PartialEq)]
pub enum EvalOutcome {
    Value(DataTypes),
    Pending(FloatOp),
    Invalid,
}

/// Outcome of the evaluation model: a value and the feed position after it, a
/// missing primitive, or a stuck evaluation.
pub ghost enum EvalR {
    Done(DataV, nat),
    Need(FloatOpV),
    Stuck,
}

/// The arithmetic request an operator token makes on the float projections of
/// its operands.
pub open spec fn arith_req(tt: TokenType, a: u32, b: u32) -> FloatOpV {
    if tt == TokenType::MINUS {
        FloatOpV::Sub(a, b)
    } else if tt == TokenType::PLUS {
        FloatOpV::Add(a, b)
    } else if tt == TokenType::SLASH {
        FloatOpV::Div(a, b)
    } else {
        FloatOpV::Mul(a, b)
    }
}

pub open spec fn is_arith_op_type(tt: TokenType) -> bool {
    ||| tt == TokenType::MINUS
    ||| tt == TokenType::PLUS
    ||| tt == TokenType::SLASH
    ||| tt == TokenType::STAR
}

pub open spec fn is_cmp_op_type(tt: TokenType) -> bool {
    ||| tt == TokenType::EqualEqual
    ||| tt == TokenType::BangEqual
    ||| tt == TokenType::LESS
    ||| tt == TokenType::LessEqual
    ||| tt == TokenType::GREATER
    ||| tt == TokenType::GreaterEqual
}

/// What a comparison operator yields on the float projections of its
/// operands, by the IEEE comparison of the bits.
pub open spec fn spec_cmp(tt: TokenType, a: u32, b: u32) -> bool {
    if tt == TokenType::EqualEqual {
        bits_eq(a, b)
    } else if tt == TokenType::BangEqual {
        !bits_eq(a, b)
    } else if tt == TokenType::LESS {
        bits_lt(a, b)
    } else if tt == TokenType::LessEqual {
        bits_le(a, b)
    } else if tt == TokenType::GREATER {
        bits_lt(b, a)
    } else {
        bits_le(b, a)
    }
}

/// A literal node's value: a NUMBER literal needs its text parsed (one feed);
/// a STRING literal passes its text through; `true`, `false` and `nil` build
/// their values directly. Any other literal token is outside the defined
/// language.
pub open spec fn spec_eval_literal(t: TokenV, feeds: Seq<u32>, pos: nat) -> EvalR {
    if t.token_type == TokenType::NUMBER {
        match t.literal {
            Option::Some(LitV::Number(txt)) => if pos < feeds.len() {
                EvalR::Done(DataV::Number(feeds[pos as int]), pos + 1)
            } else {
                EvalR::Need(FloatOpV::Parse(txt))
            },
            _ => EvalR::Stuck,
        }
    } else if t.token_type == TokenType::STRING {
        match t.literal {
            Option::Some(LitV::Str(s)) => EvalR::Done(DataV::Str(s), pos),
            _ => EvalR::Stuck,
        }
    } else if t.token_type == TokenType::TRUE {
        EvalR::Done(DataV::Bool(true), pos)
    } else if t.token_type == TokenType::FALSE {
        EvalR::Done(DataV::Bool(false), pos)
    } else if t.token_type == TokenType::NIL {
        EvalR::Done(DataV::Nil, pos)
    } else {
        EvalR::Stuck
    }
}

/// A binary node's value once both operands are evaluated: arithmetic asks
/// the caller for one float operation on the operands' float projections;
/// a comparison is computed exactly on the bits, producing a boolean.
pub open spec fn spec_eval_binop(op: TokenV, v1: DataV, v2: DataV, feeds: Seq<u32>, pos: nat) -> EvalR {
    let tt = op.token_type;
    if is_arith_op_type(tt) {
        match (spec_num_proj(v1), spec_num_proj(v2)) {
            (Option::Some(a), Option::Some(b)) => if pos < feeds.len() {
                EvalR::Done(DataV::Number(feeds[pos as int]), pos + 1)
            } else {
                EvalR::Need(arith_req(tt, a, b))
            },
            _ => EvalR::Stuck,
        }
    } else if is_cmp_op_type(tt) {
        match (spec_num_proj(v1), spec_num_proj(v2)) {
            (Option::Some(a), Option::Some(b)) => EvalR::Done(DataV::Bool(spec_cmp(tt, a, b)), pos),
            _ => EvalR::Stuck,
        }
    } else {
        EvalR::Stuck
    }
}

/// A unary node's value: minus negates the float projection, bang negates
/// the boolean projection.
pub open spec fn spec_eval_unop(op: TokenV, v: DataV, pos: nat) -> EvalR {
    if op.token_type == TokenType::MINUS {
        match spec_num_proj(v) {
            Option::Some(b) => EvalR::Done(DataV::Number(neg_bits(b)), pos),
            Option::None => EvalR::Stuck,
        }
    } else if op.token_type == TokenType::BANG {
        match spec_bool_proj(v) {
            Option::Some(b) => EvalR::Done(DataV::Bool(!b), pos),
            Option::None => EvalR::Stuck,
        }
    } else {
        EvalR::Stuck
    }
}

/// The evaluation model: a depth-first, post-order walk (left operand before
/// right) that takes each floating-point result from `feeds`, in order,
/// starting at `pos`; when the feeds run out it reports the primitive it
/// needs next.
pub open spec fn spec_eval(e: ExpV, feeds: Seq<u32>, pos: nat) -> EvalR
    decreases e,
{
    match e {
        ExpV::Literal(t) => spec_eval_literal(t, feeds, pos),
        ExpV::Grouping(inner) => spec_eval(*inner, feeds, pos),
        ExpV::Unary(op, sub) => match spec_eval(*sub, feeds, pos) {
            EvalR::Done(v, p) => spec_eval_unop(op, v, p),
            EvalR::Need(q) => EvalR::Need(q),
            EvalR::Stuck => EvalR::Stuck,
        },
        ExpV::Binary(l, op, r) => match spec_eval(*l, feeds, pos) {
            EvalR::Done(v1, p1) => match spec_eval(*r, feeds, p1) {
                EvalR::Done(v2, p2) => spec_eval_binop(op, v1, v2, feeds, p2),
                EvalR::Need(q) => EvalR::Need(q),
                EvalR::Stuck => EvalR::Stuck,
            },
            EvalR::Need(q) => EvalR::Need(q),
            EvalR::Stuck => EvalR::Stuck,
        },
    }
}

/// Feed positions never run backwards or past the feeds.
pub proof fn lemma_spec_eval_bounds(e: ExpV, feeds: Seq<u32>, pos: nat)
    requires
        pos <= feeds.len(),
    ensures
        match spec_eval(e, feeds, pos) {
            EvalR::Done(v, p) => pos <= p <= feeds.len(),
            EvalR::Need(q) => true,
            EvalR::Stuck => true,
        },
    decreases e,
{
    match e {
        ExpV::Literal(t) => {},
        ExpV::Grouping(inner) => {
            lemma_spec_eval_bounds(*inner, feeds, pos);
        },
        ExpV::Unary(op, sub) => {
            lemma_spec_eval_bounds(*sub, feeds, pos);
        },
        ExpV::Binary(l, op, r) => {
            lemma_spec_eval_bounds(*l, feeds, pos);
            match spec_eval(*l, feeds, pos) {
                EvalR::Done(v1, p1) => {
                    lemma_spec_eval_bounds(*r, feeds, p1);
                },
                _ => {},
            }
        },
    }
}


// ---------------------------------------------------------------------------
// The Interpreter
// ---------------------------------------------------------------------------

/// Outcome of one recursive evaluation pass: a value with the next feed
/// position, a missing primitive, or a stuck tree.
enum EvalStep {
    Done(DataTypes, usize),
    Need(FloatOp),
    Stuck,
}

/// The tree-walking evaluator.
pub struct Interpret;

fn eval_binop(op: &Token, v1: DataTypes, v2: DataTypes, feeds: &Vec<u32>, pos: usize) -> (r:
    EvalStep)
    requires
        pos <= feeds@.len(),
    ensures
        match spec_eval_binop(op@, v1@, v2@, feeds@, pos as nat) {
            EvalR::Done(v, p) => r matches EvalStep::Done(d, q) && d@ == v && q == p,
            EvalR::Need(q) => r matches EvalStep::Need(f) && f@ == q,
            EvalR::Stuck => r is Stuck,
        },
{
    let tt = op.token_type;
    if tt == TokenType::MINUS || tt == TokenType::PLUS || tt == TokenType::SLASH || tt
        == TokenType::STAR {
        let pa = v1.as_number_bits();
        let pb = v2.as_number_bits();
        match (pa, pb) {
            (Option::Some(a), Option::Some(b)) => {
                if pos < feeds.len() {
                    EvalStep::Done(DataTypes::Number(feeds[pos]), pos + 1)
                } else {
                    if tt == TokenType::MINUS {
                        EvalStep::Need(FloatOp::Sub(a, b))
                    } else if tt == TokenType::PLUS {
                        EvalStep::Need(FloatOp::Add(a, b))
                    } else if tt == TokenType::SLASH {
                        EvalStep::Need(FloatOp::Div(a, b))
                    } else {
                        EvalStep::Need(FloatOp::Mul(a, b))
                    }
                }
            },
            _ => EvalStep::Stuck,
        }
    } else if tt == TokenType::EqualEqual || tt == TokenType::BangEqual || tt == TokenType::LESS
        || tt == TokenType::LessEqual || tt == TokenType::GREATER || tt == TokenType::GreaterEqual {
        let pa = v1.as_number_bits();
        let pb = v2.as_number_bits();
        match (pa, pb) {
            (Option::Some(a), Option::Some(b)) => {
                let c = if tt == TokenType::EqualEqual {
                    f32_bits_eq(a, b)
                } else if tt == TokenType::BangEqual {
                    !f32_bits_eq(a, b)
                } else if tt == TokenType::LESS {
                    f32_bits_lt(a, b)
                } else if tt == TokenType::LessEqual {
                    f32_bits_le(a, b)
                } else if tt == TokenType::GREATER {
                    f32_bits_lt(b, a)
                } else {
                    f32_bits_le(b, a)
                };
                EvalStep::Done(DataTypes::Bool(c), pos)
            },
            _ => EvalStep::Stuck,
        }
    } else {
        EvalStep::Stuck
    }
}

fn eval_unop(op: &Token, v: DataTypes, pos: usize) -> (r: EvalStep)
    ensures
        match spec_eval_unop(op@, v@, pos as nat) {
            EvalR::Done(w, p) => r matches EvalStep::Done(d, q) && d@ == w && q == p,
            EvalR::Need(q) => false,
            EvalR::Stuck => r is Stuck,
        },
{
    if op.token_type == TokenType::MINUS {
        match v.as_number_bits() {
            Option::Some(b) => EvalStep::Done(DataTypes::Number(f32_neg_bits(b)), pos),
            Option::None => EvalStep::Stuck,
        }
    } else if op.token_type == TokenType::BANG {
        match v.as_bool() {
            Option::Some(b) => EvalStep::Done(DataTypes::Bool(!b), pos),
            Option::None => EvalStep::Stuck,
        }
    } else {
        EvalStep::Stuck
    }
}

fn eval_rec(e: &Expression, feeds: &Vec<u32>, pos: usize) -> (r: EvalStep)
    requires
        pos <= feeds@.len(),
    ensures
        match spec_eval(e@, feeds@, pos as nat) {
            EvalR::Done(v, p) => r matches EvalStep::Done(d, q) && d@ == v && q == p && p
                <= feeds@.len(),
            EvalR::Need(q) => r matches EvalStep::Need(f) && f@ == q,
            EvalR::Stuck => r is Stuck,
        },
    decreases e,
{
    match e {
        Expression::Literal(t) => {
            if t.token_type == TokenType::NUMBER {
                match &t.literal {
                    Option::Some(LiteralType::Number(txt)) => {
                        if pos < feeds.len() {
                            EvalStep::Done(DataTypes::Number(feeds[pos]), pos + 1)
                        } else {
                            EvalStep::Need(FloatOp::Parse(txt.clone()))
                        }
                    },
                    _ => EvalStep::Stuck,
                }
            } else if t.token_type == TokenType::STRING {
                match &t.literal {
                    Option::Some(LiteralType::Str(s)) => EvalStep::Done(
                        DataTypes::Str(s.clone()),
                        pos,
                    ),
                    _ => EvalStep::Stuck,
                }
            } else if t.token_type == TokenType::TRUE {
                EvalStep::Done(DataTypes::Bool(true), pos)
            } else if t.token_type == TokenType::FALSE {
                EvalStep::Done(DataTypes::Bool(false), pos)
            } else if t.token_type == TokenType::NIL {
                EvalStep::Done(DataTypes::Nil, pos)
            } else {
                EvalStep::Stuck
            }
        },
        Expression::Grouping(inner) => eval_rec(inner, feeds, pos),
        Expression::Unary(op, sub) => {
            match eval_rec(sub, feeds, pos) {
                EvalStep::Done(v, p) => eval_unop(op, v, p),
                EvalStep::Need(f) => EvalStep::Need(f),
                EvalStep::Stuck => EvalStep::Stuck,
            }
        },
        Expression::Binary(l, op, r2) => {
            match eval_rec(l, feeds, pos) {
                EvalStep::Done(v1, p1) => {
                    match eval_rec(r2, feeds, p1) {
                        EvalStep::Done(v2, p2) => eval_binop(op, v1, v2, feeds, p2),
                        EvalStep::Need(f) => EvalStep::Need(f),
                        EvalStep::Stuck => EvalStep::Stuck,
                    }
                },
                EvalStep::Need(f) => EvalStep::Need(f),
                EvalStep::Stuck => EvalStep::Stuck,
            }
        },
    }
}

impl Interpret {
    /// Evaluates the tree depth-first and post-order, taking every
    /// floating-point result — the parsed value of each NUMBER literal and
    /// each arithmetic result — from `feeds`, in evaluation order. When the
    /// feeds run out, the evaluation pauses and reports the primitive the
    /// caller must compute; appending that result to the feeds and calling
    /// again resumes it. Comparisons, negation and the number/boolean
    /// conversions are computed inside the library, on the bits.
    pub fn evaluate(&self, e: &Expression, feeds: &Vec<u32>) -> (r: EvalOutcome)
        ensures
            match spec_eval(e@, feeds@, 0) {
                EvalR::Done(v, p) => r matches EvalOutcome::Value(d) && d@ == v,
                EvalR::Need(q) => r matches EvalOutcome::Pending(f) && f@ == q,
                EvalR::Stuck => r == EvalOutcome::Invalid,
            },
    {
        match eval_rec(e, feeds, 0) {
            EvalStep::Done(v, _) => EvalOutcome::Value(v),
            EvalStep::Need(f) => EvalOutcome::Pending(f),
            EvalStep::Stuck => EvalOutcome::Invalid,
        }
    }
}

// ---------------------------------------------------------------------------
// The pretty-printer
// ---------------------------------------------------------------------------

/// Renders a tree to its canonical parenthesized form.
pub struct PrettyPrint;

/// The canonical parenthesized form: `(op left right)` for a binary node,
/// `(op operand)` for a unary node, `(group inner)` for a grouping, and a
/// literal's text form for a literal (a literal token without a payload,
/// such as `true` or `nil`, prints its lexeme).
pub open spec fn pp_view(e: ExpV) -> Seq<char>
    decreases e,
{
    match e {
        ExpV::Binary(l, op, r) => seq!['('] + op.text + seq![' '] + pp_view(*l) + seq![' ']
            + pp_view(*r) + seq![')'],
        ExpV::Unary(op, s) => seq!['('] + op.text + seq![' '] + pp_view(*s) + seq![')'],
        ExpV::Literal(t) => match t.literal {
            Option::Some(LitV::Str(s)) => s,
            Option::Some(LitV::Number(n)) => n,
            Option::None => t.text,
        },
        ExpV::Grouping(inner) => "(group "@ + pp_view(*inner) + seq![')'],
    }
}

impl PrettyPrint {
    /// Renders the tree to exactly its canonical form.
    pub fn print(&self, e: &Expression) -> (r: String)
        ensures
            r@ == pp_view(e@),
        decreases e,
    {
        match e {
            Expression::Binary(l, op, r2) => {
                let mut out = "(".to_owned();
                out.append(op.text.as_str());
                out.append(" ");
                let ls = self.print(l);
                out.append(ls.as_str());
                out.append(" ");
                let rs = self.print(r2);
                out.append(rs.as_str());
                out.append(")");
                proof {
                    reveal_strlit("(");
                    reveal_strlit(" ");
                    reveal_strlit(")");
                    assert(out@ =~= pp_view(e@));
                }
                out
            },
            Expression::Unary(op, s) => {
                let mut out = "(".to_owned();
                out.append(op.text.as_str());
                out.append(" ");
                let ss = self.print(s);
                out.append(ss.as_str());
                out.append(")");
                proof {
                    reveal_strlit("(");
                    reveal_strlit(" ");
                    reveal_strlit(")");
                    assert(out@ =~= pp_view(e@));
                }
                out
            },
            Expression::Literal(t) => {
                match &t.literal {
                    Option::Some(l) => l.print(),
                    Option::None => t.text.clone(),
                }
            },
            Expression::Grouping(inner) => {
                let mut out = "(group ".to_owned();
                let is = self.print(inner);
                out.append(is.as_str());
                out.append(")");
                proof {
                    reveal_strlit("(");
                    reveal_strlit(" ");
                    reveal_strlit(")");
                    assert(out@ =~= pp_view(e@));
                }
                out
            },
        }
    }
}

// ---------------------------------------------------------------------------
// The visitor capability
// ---------------------------------------------------------------------------

/// The polymorphic capability of visiting an expression tree and producing a
/// result. The feeds argument carries the floating-point results the
/// Interpreter consumes (see Interpret::evaluate); the pretty-printer ignores
/// it.
pub trait ExpressionVistor<T> {
    fn vist_expr(&self, e: &Expression, feeds: &Vec<u32>) -> T;
}

impl ExpressionVistor<EvalOutcome> for Interpret {
    fn vist_expr(&self, e: &Expression, feeds: &Vec<u32>) -> EvalOutcome {
        self.evaluate(e, feeds)
    }
}

impl ExpressionVistor<String> for PrettyPrint {
    fn vist_expr(&self, e: &Expression, _feeds: &Vec<u32>) -> String {
        self.print(e)
    }
}


// ---------------------------------------------------------------------------
// The evaluation law: the feed protocol computes the direct recursive
// semantics, whatever the floating-point primitives return.
// ---------------------------------------------------------------------------

/// An arithmetic interpretation: what each floating-point primitive returns.
pub ghost struct FloatSem {
    pub parse: spec_fn(Seq<char>) -> u32,
    pub add: spec_fn(u32, u32) -> u32,
    pub sub: spec_fn(u32, u32) -> u32,
    pub mul: spec_fn(u32, u32) -> u32,
    pub div: spec_fn(u32, u32) -> u32,
}

/// The value an interpretation gives to a requested primitive.
pub open spec fn apply_sem(sem: FloatSem, q: FloatOpV) -> u32 {
    match q {
        FloatOpV::Parse(s) => (sem.parse)(s),
        FloatOpV::Add(a, b) => (sem.add)(a, b),
        FloatOpV::Sub(a, b) => (sem.sub)(a, b),
        FloatOpV::Mul(a, b) => (sem.mul)(a, b),
        FloatOpV::Div(a, b) => (sem.div)(a, b),
    }
}

/// Outcome of the direct recursive semantics: the value, or a stuck tree;
/// either way, the primitives requested along the way, in evaluation order.
pub ghost enum FoldR {
    Val(DataV, Seq<FloatOpV>),
    Stuck(Seq<FloatOpV>),
}

pub open spec fn fold_reqs(f: FoldR) -> Seq<FloatOpV> {
    match f {
        FoldR::Val(_, qs) => qs,
        FoldR::Stuck(qs) => qs,
    }
}

/// The direct recursive semantics under an interpretation: children first,
/// left before right, each primitive's result applied in place.
pub open spec fn fold_eval(e: ExpV, sem: FloatSem) -> FoldR
    decreases e,
{
    match e {
        ExpV::Literal(t) => {
            if t.token_type == TokenType::NUMBER {
                match t.literal {
                    Option::Some(LitV::Number(txt)) => FoldR::Val(
                        DataV::Number((sem.parse)(txt)),
                        seq![FloatOpV::Parse(txt)],
                    ),
                    _ => FoldR::Stuck(seq![]),
                }
            } else if t.token_type == TokenType::STRING {
                match t.literal {
                    Option::Some(LitV::Str(s)) => FoldR::Val(DataV::Str(s), seq![]),
                    _ => FoldR::Stuck(seq![]),
                }
            } else if t.token_type == TokenType::TRUE {
                FoldR::Val(DataV::Bool(true), seq![])
            } else if t.token_type == TokenType::FALSE {
                FoldR::Val(DataV::Bool(false), seq![])
            } else if t.token_type == TokenType::NIL {
                FoldR::Val(DataV::Nil, seq![])
            } else {
                FoldR::Stuck(seq![])
            }
        },
        ExpV::Grouping(inner) => fold_eval(*inner, sem),
        ExpV::Unary(op, sub) => {
            match fold_eval(*sub, sem) {
                FoldR::Val(v, qs) => {
                    if op.token_type == TokenType::MINUS {
                        match spec_num_proj(v) {
                            Option::Some(b) => FoldR::Val(DataV::Number(neg_bits(b)), qs),
                            Option::None => FoldR::Stuck(qs),
                        }
                    } else if op.token_type == TokenType::BANG {
                        match spec_bool_proj(v) {
                            Option::Some(b) => FoldR::Val(DataV::Bool(!b), qs),
                            Option::None => FoldR::Stuck(qs),
                        }
                    } else {
                        FoldR::Stuck(qs)
                    }
                },
                FoldR::Stuck(qs) => FoldR::Stuck(qs),
            }
        },
        ExpV::Binary(l, op, r) => {
            match fold_eval(*l, sem) {
                FoldR::Val(v1, qs1) => {
                    match fold_eval(*r, sem) {
                        FoldR::Val(v2, qs2) => {
                            let tt = op.token_type;
                            if is_arith_op_type(tt) {
                                match (spec_num_proj(v1), spec_num_proj(v2)) {
                                    (Option::Some(a), Option::Some(b)) => FoldR::Val(
                                        DataV::Number(apply_sem(sem, arith_req(tt, a, b))),
                                        qs1 + qs2 + seq![arith_req(tt, a, b)],
                                    ),
                                    _ => FoldR::Stuck(qs1 + qs2),
                                }
                            } else if is_cmp_op_type(tt) {
                                match (spec_num_proj(v1), spec_num_proj(v2)) {
                                    (Option::Some(a), Option::Some(b)) => FoldR::Val(
                                        DataV::Bool(spec_cmp(tt, a, b)),
                                        qs1 + qs2,
                                    ),
                                    _ => FoldR::Stuck(qs1 + qs2),
                                }
                            } else {
                                FoldR::Stuck(qs1 + qs2)
                            }
                        },
                        FoldR::Stuck(qs2) => FoldR::Stuck(qs1 + qs2),
                    }
                },
                FoldR::Stuck(qs1) => FoldR::Stuck(qs1),
            }
        },
    }
}

/// The feeds from `pos` on agree with the requests' values under the
/// interpretation, as far as both go.
pub open spec fn feeds_agree(feeds: Seq<u32>, pos: nat, reqs: Seq<FloatOpV>, sem: FloatSem) -> bool {
    forall|k: int|
        0 <= k && k < feeds.len() - pos && k < reqs.len() ==> feeds[pos + k] == apply_sem(
            sem,
            reqs[k],
        )
}

/// The evaluation law. Fix any interpretation of the five floating-point
/// primitives and feed the evaluator results that agree with it, in order.
/// Then: with at least as many feeds as the tree requests, evaluation ends
/// exactly in the direct recursive value (or is stuck exactly where the
/// direct semantics is); with fewer, it asks exactly for the next primitive
/// of the direct semantics.
pub proof fn lemma_eval_feeds_fold(e: ExpV, sem: FloatSem, feeds: Seq<u32>, pos: nat)
    requires
        pos <= feeds.len(),
        feeds_agree(feeds, pos, fold_reqs(fold_eval(e, sem)), sem),
    ensures
        ({
            let fr = fold_eval(e, sem);
            let reqs = fold_reqs(fr);
            if feeds.len() - pos >= reqs.len() {
                match fr {
                    FoldR::Val(v, qs) => spec_eval(e, feeds, pos) == EvalR::Done(
                        v,
                        (pos + qs.len()) as nat,
                    ),
                    FoldR::Stuck(qs) => spec_eval(e, feeds, pos) == EvalR::Stuck,
                }
            } else {
                spec_eval(e, feeds, pos) == EvalR::Need(reqs[feeds.len() - pos])
            }
        }),
    decreases e,
{
    let fr = fold_eval(e, sem);
    let reqs = fold_reqs(fr);
    match e {
        ExpV::Literal(t) => {
            if reqs.len() == 1 && feeds.len() - pos >= 1 {
                assert(feeds[pos as int + 0] == apply_sem(sem, reqs[0]));
            }
        },
        ExpV::Grouping(inner) => {
            lemma_eval_feeds_fold(*inner, sem, feeds, pos);
        },
        ExpV::Unary(op, sub) => {
            lemma_eval_feeds_fold(*sub, sem, feeds, pos);
        },
        ExpV::Binary(l, op, r) => {
            let frl = fold_eval(*l, sem);
            let qs1 = fold_reqs(frl);
            assert(feeds_agree(feeds, pos, qs1, sem)) by {
                assert forall|k: int|
                    0 <= k && k < feeds.len() - pos && k < qs1.len() implies feeds[pos + k]
                    == apply_sem(sem, qs1[k]) by {
                    assert(reqs[k] == qs1[k]);
                }
            }
            lemma_eval_feeds_fold(*l, sem, feeds, pos);
            match frl {
                FoldR::Val(v1, _) => {
                    if feeds.len() - pos >= qs1.len() {
                        let p1 = (pos + qs1.len()) as nat;
                        let frr = fold_eval(*r, sem);
                        let qs2 = fold_reqs(frr);
                        assert(feeds_agree(feeds, p1, qs2, sem)) by {
                            assert forall|k: int|
                                0 <= k && k < feeds.len() - p1 && k < qs2.len() implies feeds[p1
                                + k] == apply_sem(sem, qs2[k]) by {
                                assert(reqs[qs1.len() + k] == qs2[k]);
                                assert(feeds[pos + (qs1.len() + k)] == apply_sem(
                                    sem,
                                    reqs[qs1.len() + k],
                                ));
                            }
                        }
                        lemma_eval_feeds_fold(*r, sem, feeds, p1);
                        match frr {
                            FoldR::Val(v2, _) => {
                                if feeds.len() - p1 >= qs2.len() {
                                    let p2 = (p1 + qs2.len()) as nat;
                                    let tt = op.token_type;
                                    if is_arith_op_type(tt) && spec_num_proj(v1) is Some
                                        && spec_num_proj(v2) is Some {
                                        let q3 = arith_req(
                                            tt,
                                            spec_num_proj(v1)->Some_0,
                                            spec_num_proj(v2)->Some_0,
                                        );
                                        assert(reqs == qs1 + qs2 + seq![q3]);
                                        assert(reqs.len() == qs1.len() + qs2.len() + 1);
                                        if feeds.len() - pos >= reqs.len() {
                                            assert(p2 < feeds.len());
                                            assert(reqs[(qs1.len() + qs2.len()) as int] == q3);
                                            assert(feeds[(pos + qs1.len() + qs2.len()) as int]
                                                == apply_sem(sem, q3));
                                        } else {
                                            assert(feeds.len() - pos == qs1.len() + qs2.len());
                                            assert(p2 == feeds.len());
                                            assert(reqs[feeds.len() - pos] == q3);
                                        }
                                    } else {
                                        assert(reqs.len() == qs1.len() + qs2.len());
                                    }
                                } else {
                                    assert(spec_eval(e, feeds, pos) == spec_eval(*r, feeds, p1));
                                    assert(reqs[feeds.len() - pos] == qs2[feeds.len() - p1]);
                                }
                            },
                            FoldR::Stuck(_) => {
                                if feeds.len() - p1 >= qs2.len() {
                                    assert(feeds.len() - pos >= reqs.len());
                                } else {
                                    assert(reqs[feeds.len() - pos] == qs2[feeds.len() - p1]);
                                }
                            },
                        }
                    } else {
                        assert(spec_eval(e, feeds, pos) == spec_eval(*l, feeds, pos));
                        assert(reqs[feeds.len() - pos] == qs1[feeds.len() - pos]);
                    }
                },
                FoldR::Stuck(_) => {},
            }
        },
    }
}

/// The canonical feeds of a tree under an interpretation: every requested
/// primitive's value, in evaluation order.
pub open spec fn canonical_feeds(e: ExpV, sem: FloatSem) -> Seq<u32> {
    fold_reqs(fold_eval(e, sem)).map_values(|q: FloatOpV| apply_sem(sem, q))
}

/// With the canonical feeds supplied in full, evaluation returns exactly the
/// direct recursive value of the tree (or is stuck exactly where the direct
/// semantics is). Together with the request-by-request law below, this says
/// the caller's loop — compute each pending primitive, append it, call again
/// — terminates after exactly one round per primitive and ends in the direct
/// recursive semantics of the tree.
pub proof fn lemma_evaluate_complete(e: ExpV, sem: FloatSem)
    ensures
        ({
            let fr = fold_eval(e, sem);
            match fr {
                FoldR::Val(v, qs) => spec_eval(e, canonical_feeds(e, sem), 0) == EvalR::Done(
                    v,
                    qs.len(),
                ),
                FoldR::Stuck(qs) => spec_eval(e, canonical_feeds(e, sem), 0) == EvalR::Stuck,
            }
        }),
{
    lemma_eval_feeds_fold(e, sem, canonical_feeds(e, sem), 0);
}

/// After any proper prefix of the canonical feeds, evaluation asks exactly
/// for the next primitive the direct semantics would compute.
pub proof fn lemma_evaluate_round(e: ExpV, sem: FloatSem, k: nat)
    requires
        k < fold_reqs(fold_eval(e, sem)).len(),
    ensures
        spec_eval(e, canonical_feeds(e, sem).take(k as int), 0) == EvalR::Need(
            fold_reqs(fold_eval(e, sem))[k as int],
        ),
{
    lemma_eval_feeds_fold(e, sem, canonical_feeds(e, sem).take(k as int), 0);
}


// ---------------------------------------------------------------------------
// The printing law: the canonical form is an information-preserving
// serialization of the tree shape.
// ---------------------------------------------------------------------------

/// The shape of a tree: its structure together with the texts the printer
/// emits — operator lexemes and literal text forms — and nothing else.
pub ghost enum ShapeV {
    Binary(Box<ShapeV>, Seq<char>, Box<ShapeV>),
    Unary(Seq<char>, Box<ShapeV>),
    Atom(Seq<char>),
    Group(Box<ShapeV>),
}

/// The shape of an expression tree: operator lexemes and literal text forms,
/// with token kinds and line numbers dropped.
pub open spec fn shape_of(e: ExpV) -> ShapeV
    decreases e,
{
    match e {
        ExpV::Binary(l, op, r) => ShapeV::Binary(
            Box::new(shape_of(*l)),
            op.text,
            Box::new(shape_of(*r)),
        ),
        ExpV::Unary(op, s) => ShapeV::Unary(op.text, Box::new(shape_of(*s))),
        ExpV::Literal(t) => ShapeV::Atom(
            match t.literal {
                Option::Some(LitV::Str(s)) => s,
                Option::Some(LitV::Number(n)) => n,
                Option::None => t.text,
            },
        ),
        ExpV::Grouping(inner) => ShapeV::Group(Box::new(shape_of(*inner))),
    }
}

/// The canonical form of a shape; the printer's output factors through it.
pub open spec fn pp_shape(x: ShapeV) -> Seq<char>
    decreases x,
{
    match x {
        ShapeV::Binary(l, op, r) => seq!['('] + op + seq![' '] + pp_shape(*l) + seq![' ']
            + pp_shape(*r) + seq![')'],
        ShapeV::Unary(op, s) => seq!['('] + op + seq![' '] + pp_shape(*s) + seq![')'],
        ShapeV::Atom(t) => t,
        ShapeV::Group(inner) => "(group "@ + pp_shape(*inner) + seq![')'],
    }
}

/// The printed form of a tree is the printed form of its shape.
pub proof fn lemma_pp_factors(e: ExpV)
    ensures
        pp_view(e) == pp_shape(shape_of(e)),
    decreases e,
{
    match e {
        ExpV::Binary(l, op, r) => {
            lemma_pp_factors(*l);
            lemma_pp_factors(*r);
        },
        ExpV::Unary(op, s) => {
            lemma_pp_factors(*s);
        },
        ExpV::Literal(t) => {},
        ExpV::Grouping(inner) => {
            lemma_pp_factors(*inner);
        },
    }
}

/// The three characters that structure the canonical form.
pub open spec fn is_delim(c: char) -> bool {
    c == '(' || c == ')' || c == ' '
}

pub open spec fn no_delims(t: Seq<char>) -> bool {
    forall|k: int| 0 <= k < t.len() ==> !is_delim(t[k])
}

/// An atomic text: nonempty and free of parentheses and spaces. Atomic
/// operator lexemes and literal texts make the canonical form uniquely
/// readable.
pub open spec fn atomic(t: Seq<char>) -> bool {
    t.len() > 0 && no_delims(t)
}

/// A shape whose canonical form can be read back: every operator lexeme and
/// every literal text is atomic, and no operator is spelled "group", which
/// the form reserves for groupings. (A string literal whose text holds a
/// space or a parenthesis falls outside this class, and its printed form is
/// genuinely ambiguous.)
pub open spec fn wf_shape(x: ShapeV) -> bool
    decreases x,
{
    match x {
        ShapeV::Binary(l, op, r) => atomic(op) && op != "group"@ && wf_shape(*l) && wf_shape(*r),
        ShapeV::Unary(op, s) => atomic(op) && op != "group"@ && wf_shape(*s),
        ShapeV::Atom(t) => atomic(t),
        ShapeV::Group(inner) => wf_shape(*inner),
    }
}

/// A printable tree: one whose shape can be read back from its printed form.
pub open spec fn wf_printable(e: ExpV) -> bool {
    wf_shape(shape_of(e))
}

/// The length of the delimiter-free prefix.
pub open spec fn take_atom(s: Seq<char>) -> nat
    decreases s.len(),
{
    if s.len() == 0 || is_delim(s[0]) {
        0
    } else {
        (1 + take_atom(s.skip(1))) as nat
    }
}

/// The decoder: reads one unit of the canonical form and returns its shape
/// and the unread rest. An atom is a maximal delimiter-free run; `(op u)` is
/// a unary node, `(op u v)` a binary node, and `(group u)` a grouping. The
/// guard on the rest's length after the first operand keeps the recursion
/// well-founded; a decoded unit always consumes at least one character, so
/// its failure branch is never reached.
pub open spec fn decode_unit(s: Seq<char>) -> Option<(ShapeV, Seq<char>)>
    decreases s.len(),
{
    if s.len() == 0 {
        Option::None
    } else if s[0] != '(' {
        let n = take_atom(s);
        if n == 0 {
            Option::None
        } else {
            Option::Some((ShapeV::Atom(s.take(n as int)), s.skip(n as int)))
        }
    } else {
        let t = s.skip(1);
        let n = take_atom(t);
        if n == 0 || n >= t.len() || t[n as int] != ' ' {
            Option::None
        } else {
            let op = t.take(n as int);
            let u = t.skip(n as int + 1);
            match decode_unit(u) {
                Option::Some((x1, v)) => {
                    if op == "group"@ {
                        if v.len() > 0 && v[0] == ')' {
                            Option::Some((ShapeV::Group(Box::new(x1)), v.skip(1)))
                        } else {
                            Option::None
                        }
                    } else if v.len() > 0 && v[0] == ')' {
                        Option::Some((ShapeV::Unary(op, Box::new(x1)), v.skip(1)))
                    } else if v.len() > 0 && v[0] == ' ' && v.len() < u.len() {
                        match decode_unit(v.skip(1)) {
                            Option::Some((x2, w)) => {
                                if w.len() > 0 && w[0] == ')' {
                                    Option::Some(
                                        (ShapeV::Binary(Box::new(x1), op, Box::new(x2)), w.skip(1)),
                                    )
                                } else {
                                    Option::None
                                }
                            },
                            Option::None => Option::None,
                        }
                    } else {
                        Option::None
                    }
                },
                Option::None => Option::None,
            }
        }
    }
}


proof fn lemma_take_atom_concat(t: Seq<char>, rest: Seq<char>)
    requires
        no_delims(t),
        rest.len() == 0 || is_delim(rest[0]),
    ensures
        take_atom(t + rest) == t.len(),
    decreases t.len(),
{
    if t.len() == 0 {
        assert(t + rest =~= rest);
    } else {
        assert((t + rest)[0] == t[0]);
        assert(!is_delim(t[0]));
        assert((t + rest).skip(1) =~= t.skip(1) + rest);
        assert(no_delims(t.skip(1)));
        lemma_take_atom_concat(t.skip(1), rest);
    }
}

proof fn lemma_pp_shape_nonempty(x: ShapeV)
    requires
        wf_shape(x),
    ensures
        pp_shape(x).len() >= 1,
{
    match x {
        ShapeV::Binary(l, op, r) => {},
        ShapeV::Unary(op, s) => {},
        ShapeV::Atom(t) => {},
        ShapeV::Group(inner) => {},
    }
}

proof fn lemma_rt_atom(txt: Seq<char>, rest: Seq<char>)
    requires
        atomic(txt),
        rest.len() == 0 || is_delim(rest[0]),
    ensures
        decode_unit(txt + rest) == Option::Some((ShapeV::Atom(txt), rest)),
{
    let s = txt + rest;
    assert(s[0] == txt[0]);
    lemma_take_atom_concat(txt, rest);
    assert(take_atom(s) == txt.len());
    assert(s.take(txt.len() as int) =~= txt);
    assert(s.skip(txt.len() as int) =~= rest);
}

#[verifier::spinoff_prover]
proof fn lemma_rt_unary(op: Seq<char>, x1: ShapeV, rest: Seq<char>)
    requires
        atomic(op),
        op != "group"@,
        wf_shape(x1),
        rest.len() == 0 || is_delim(rest[0]),
        decode_unit(pp_shape(x1) + (seq![')'] + rest)) == Option::Some((x1, seq![')'] + rest)),
    ensures
        decode_unit(pp_shape(ShapeV::Unary(op, Box::new(x1))) + rest) == Option::Some(
            (ShapeV::Unary(op, Box::new(x1)), rest),
        ),
{
    let s = pp_shape(ShapeV::Unary(op, Box::new(x1))) + rest;
    assert(s[0] == '(');
    let after_op = seq![' '] + pp_shape(x1) + seq![')'] + rest;
    let t = s.skip(1);
    assert(t =~= op + after_op);
    assert(is_delim(after_op[0]));
    lemma_take_atom_concat(op, after_op);
    let n = op.len();
    assert(take_atom(t) == n);
    assert(t.len() == n + after_op.len());
    assert(t[n as int] == after_op[0]);
    assert(t.take(n as int) =~= op);
    let tail1 = seq![')'] + rest;
    let u = t.skip(n as int + 1);
    assert(u =~= pp_shape(x1) + tail1);
    assert(decode_unit(u) == Option::Some((x1, tail1)));
    assert(tail1[0] == ')');
    assert(tail1.skip(1) =~= rest);
}

#[verifier::rlimit(50)]
#[verifier::spinoff_prover]
proof fn lemma_rt_binary(op: Seq<char>, x1: ShapeV, x2: ShapeV, rest: Seq<char>)
    requires
        atomic(op),
        op != "group"@,
        wf_shape(x1),
        wf_shape(x2),
        rest.len() == 0 || is_delim(rest[0]),
        decode_unit(pp_shape(x1) + (seq![' '] + pp_shape(x2) + seq![')'] + rest)) == Option::Some(
            (x1, seq![' '] + pp_shape(x2) + seq![')'] + rest),
        ),
        decode_unit(pp_shape(x2) + (seq![')'] + rest)) == Option::Some((x2, seq![')'] + rest)),
    ensures
        decode_unit(pp_shape(ShapeV::Binary(Box::new(x1), op, Box::new(x2))) + rest)
            == Option::Some((ShapeV::Binary(Box::new(x1), op, Box::new(x2)), rest)),
{
    let s = pp_shape(ShapeV::Binary(Box::new(x1), op, Box::new(x2))) + rest;
    assert(s[0] == '(');
    let after_op = seq![' '] + pp_shape(x1) + seq![' '] + pp_shape(x2) + seq![')'] + rest;
    let t = s.skip(1);
    assert(t =~= op + after_op);
    assert(is_delim(after_op[0]));
    lemma_take_atom_concat(op, after_op);
    let n = op.len();
    assert(take_atom(t) == n);
    assert(t[n as int] == after_op[0]);
    assert(t.take(n as int) =~= op);
    let tail1 = seq![' '] + pp_shape(x2) + seq![')'] + rest;
    let u = t.skip(n as int + 1);
    assert(u =~= pp_shape(x1) + tail1);
    assert(decode_unit(u) == Option::Some((x1, tail1)));
    assert(tail1[0] == ' ');
    lemma_pp_shape_nonempty(x1);
    assert(u.len() == pp_shape(x1).len() + tail1.len());
    assert(tail1.len() < u.len());
    let tail2 = seq![')'] + rest;
    assert(tail1.skip(1) =~= pp_shape(x2) + tail2);
    assert(decode_unit(tail1.skip(1)) == Option::Some((x2, tail2)));
    assert(tail2[0] == ')');
    assert(tail2.skip(1) =~= rest);
}

#[verifier::spinoff_prover]
proof fn lemma_rt_group(x1: ShapeV, rest: Seq<char>)
    requires
        wf_shape(x1),
        rest.len() == 0 || is_delim(rest[0]),
        decode_unit(pp_shape(x1) + (seq![')'] + rest)) == Option::Some((x1, seq![')'] + rest)),
    ensures
        decode_unit(pp_shape(ShapeV::Group(Box::new(x1))) + rest) == Option::Some(
            (ShapeV::Group(Box::new(x1)), rest),
        ),
{
    reveal_strlit("(group ");
    reveal_strlit("group");
    let s = pp_shape(ShapeV::Group(Box::new(x1))) + rest;
    assert("(group "@ =~= seq!['('] + "group"@ + seq![' ']);
    assert(s =~= seq!['('] + "group"@ + seq![' '] + pp_shape(x1) + seq![')'] + rest);
    assert(s[0] == '(');
    let op = "group"@;
    assert(op.len() == 5);
    assert(no_delims(op)) by {
        assert forall|k: int| 0 <= k < op.len() implies !is_delim(op[k]) by {
            if k == 0 {
                assert(op[0] == 'g');
            } else if k == 1 {
                assert(op[1] == 'r');
            } else if k == 2 {
                assert(op[2] == 'o');
            } else if k == 3 {
                assert(op[3] == 'u');
            } else {
                assert(op[4] == 'p');
            }
        }
    }
    let after_op = seq![' '] + pp_shape(x1) + seq![')'] + rest;
    let t = s.skip(1);
    assert(t =~= op + after_op);
    assert(is_delim(after_op[0]));
    lemma_take_atom_concat(op, after_op);
    let n = op.len();
    assert(take_atom(t) == n);
    assert(t[n as int] == after_op[0]);
    assert(t.take(n as int) =~= op);
    let tail1 = seq![')'] + rest;
    let u = t.skip(n as int + 1);
    assert(u =~= pp_shape(x1) + tail1);
    assert(decode_unit(u) == Option::Some((x1, tail1)));
    assert(tail1[0] == ')');
    assert(tail1.skip(1) =~= rest);
}

/// Reading the canonical form of a well-formed shape, with anything that
/// starts with a delimiter (or nothing) after it, gives back exactly that
/// shape and that rest.
proof fn lemma_decode_round_trip(x: ShapeV, rest: Seq<char>)
    requires
        wf_shape(x),
        rest.len() == 0 || is_delim(rest[0]),
    ensures
        decode_unit(pp_shape(x) + rest) == Option::Some((x, rest)),
    decreases x,
{
    match x {
        ShapeV::Atom(txt) => {
            lemma_rt_atom(txt, rest);
        },
        ShapeV::Unary(op, x1) => {
            lemma_decode_round_trip(*x1, seq![')'] + rest);
            lemma_rt_unary(op, *x1, rest);
        },
        ShapeV::Binary(x1, op, x2) => {
            lemma_decode_round_trip(*x1, seq![' '] + pp_shape(*x2) + seq![')'] + rest);
            lemma_decode_round_trip(*x2, seq![')'] + rest);
            lemma_rt_binary(op, *x1, *x2, rest);
        },
        ShapeV::Group(x1) => {
            lemma_decode_round_trip(*x1, seq![')'] + rest);
            lemma_rt_group(*x1, rest);
        },
    }
}

/// The printing law: pretty-printing is an information-preserving
/// serialization of the tree shape. For every printable tree — operator
/// lexemes and literal texts atomic, operators not spelled "group" — the
/// decoder reads the printed text back to exactly the tree's shape, with
/// nothing left over.
pub proof fn lemma_pretty_print_faithful(e: ExpV)
    requires
        wf_printable(e),
    ensures
        decode_unit(pp_view(e)) == Option::Some((shape_of(e), Seq::<char>::empty())),
{
    lemma_pp_factors(e);
    lemma_decode_round_trip(shape_of(e), Seq::empty());
    assert(pp_shape(shape_of(e)) + Seq::<char>::empty() =~= pp_shape(shape_of(e)));
}

/// Two printable trees with the same printed form have the same shape: the
/// printed form determines every operator lexeme and operand, in structure.
pub proof fn lemma_pretty_print_injective(e1: ExpV, e2: ExpV)
    requires
        wf_printable(e1),
        wf_printable(e2),
        pp_view(e1) == pp_view(e2),
    ensures
        shape_of(e1) == shape_of(e2),
{
    lemma_pretty_print_faithful(e1);
    lemma_pretty_print_faithful(e2);
}


/// Whether the text is atomic, as executable code.
fn exec_atomic(t: &String) -> (r: bool)
    ensures
        r == atomic(t@),
{
    let s = t.as_str();
    let n = s.unicode_len();
    if n == 0 {
        return false;
    }
    let mut k: usize = 0;
    while k < n
        invariant
            k <= n,
            n == s@.len(),
            s@ == t@,
            t@.len() > 0,
            forall|j: int| 0 <= j < k ==> !is_delim(s@[j]),
        decreases n - k,
    {
        let c = s.get_char(k);
        if c == '(' || c == ')' || c == ' ' {
            return false;
        }
        k = k + 1;
    }
    true
}

impl PrettyPrint {
    /// Whether the tree is printable: whether its canonical form can be read
    /// back to its exact shape (see the printing law). A caller can test any
    /// tree with this before relying on the printed form.
    pub fn is_printable(&self, e: &Expression) -> (r: bool)
        ensures
            r == wf_printable(e@),
        decreases e,
    {
        match e {
            Expression::Binary(l, op, r2) => {
                exec_atomic(&op.text) && !(op.text == "group".to_owned()) && self.is_printable(l)
                    && self.is_printable(r2)
            },
            Expression::Unary(op, s) => {
                exec_atomic(&op.text) && !(op.text == "group".to_owned()) && self.is_printable(s)
            },
            Expression::Literal(t) => {
                match &t.literal {
                    Option::Some(l) => exec_atomic(&l.print()),
                    Option::None => exec_atomic(&t.text),
                }
            },
            Expression::Grouping(inner) => self.is_printable(inner),
        }
    }
}

} // verus!
