use vstd::prelude::*;

use crate::error_handler::Errors;
use crate::lexer::{
    digits_end, eof_token, is_digit_c, lex_from, scan_step, spec_scan, LexR, Lexer, StepR,
};
use crate::parser::{
    is_comp_op, is_eq_op, is_factor_op, is_literal_start, is_term_op, is_unary_op, p_comp,
    p_comp_rest, p_eqality, p_eqality_rest, p_expression, p_factor, p_factor_rest, p_primary,
    p_term, p_term_rest, p_unary, ExpV, ParseR, Parser,
};
use crate::tokens::{LitV, TokenType, TokenV};
use crate::visitor::{atomic, is_delim, no_delims, pp_view, wf_printable, PrettyPrint};

verus! {

// ---------------------------------------------------------------------------
// From source text to printable trees: the scanner only emits well-shaped
// tokens, and the parser only builds printable trees from them (string
// literals aside, whose text is arbitrary source text).
// ---------------------------------------------------------------------------

/// The operator categories the grammar puts into Binary and Unary nodes.
pub open spec fn op_kind(tt: TokenType) -> bool {
    ||| tt == TokenType::BANG
    ||| tt == TokenType::MINUS
    ||| tt == TokenType::PLUS
    ||| tt == TokenType::SLASH
    ||| tt == TokenType::STAR
    ||| tt == TokenType::BangEqual
    ||| tt == TokenType::EqualEqual
    ||| tt == TokenType::LESS
    ||| tt == TokenType::LessEqual
    ||| tt == TokenType::GREATER
    ||| tt == TokenType::GreaterEqual
}

/// A well-shaped token, as the scanner emits them: operator lexemes are
/// atomic and are not spelled "group"; the three keyword literals carry their
/// keyword as lexeme; a NUMBER token carries its digit text, which is atomic;
/// a STRING token carries its text payload.
pub open spec fn shapely_token(t: TokenV) -> bool {
    &&& (op_kind(t.token_type) ==> atomic(t.text) && t.text != "group"@)
    &&& (t.token_type == TokenType::TRUE ==> t.text == "true"@)
    &&& (t.token_type == TokenType::FALSE ==> t.text == "false"@)
    &&& (t.token_type == TokenType::NIL ==> t.text == "nil"@)
    &&& (t.token_type == TokenType::NUMBER ==> match t.literal {
        Option::Some(LitV::Number(txt)) => atomic(txt),
        _ => false,
    })
    &&& (t.token_type == TokenType::STRING ==> match t.literal {
        Option::Some(LitV::Str(_)) => true,
        _ => false,
    })
    &&& (t.token_type != TokenType::NUMBER && t.token_type != TokenType::STRING
        ==> t.literal is None)
}

pub open spec fn all_shapely(toks: Seq<TokenV>) -> bool {
    forall|k: int| 0 <= k < toks.len() ==> shapely_token(#[trigger] toks[k])
}

proof fn lemma_digits_run(s: Seq<char>, from: nat)
    requires
        from <= s.len(),
    ensures
        forall|k: int| from <= k < digits_end(s, from) ==> is_digit_c(#[trigger] s[k]),
        from <= digits_end(s, from) <= s.len(),
    decreases s.len() - from,
{
    if from < s.len() && is_digit_c(s[from as int]) {
        lemma_digits_run(s, from + 1);
    }
}


proof fn lemma_one_char_atomic(s: Seq<char>, i: nat)
    requires
        i < s.len(),
        !is_delim(s[i as int]),
    ensures
        atomic(s.subrange(i as int, (i + 1) as int)),
{
    let txt = s.subrange(i as int, (i + 1) as int);
    assert forall|k: int| 0 <= k < txt.len() implies !is_delim(txt[k]) by {
        assert(txt[k] == s[i as int]);
    }
}

proof fn lemma_two_char_atomic(s: Seq<char>, i: nat)
    requires
        i + 1 < s.len(),
        !is_delim(s[i as int]),
        !is_delim(s[(i + 1) as int]),
    ensures
        atomic(s.subrange(i as int, (i + 2) as int)),
{
    let txt = s.subrange(i as int, (i + 2) as int);
    assert forall|k: int| 0 <= k < txt.len() implies !is_delim(txt[k]) by {
        if k == 0 {
            assert(txt[k] == s[i as int]);
        } else {
            assert(txt[k] == s[(i + 1) as int]);
        }
    }
}

/// Every token one scan step emits is well-shaped.
proof fn lemma_scan_step_shapely(s: Seq<char>, i: nat, line: nat)
    requires
        i < s.len(),
    ensures
        match scan_step(s, i, line) {
            StepR::Tokens(ts, ni, nl) => forall|k: int|
                0 <= k < ts.len() ==> shapely_token(#[trigger] ts[k]),
            StepR::Error(e) => true,
        },
{
    reveal_strlit("group");
    let c = s[i as int];
    if c == '(' || c == ')' || c == '{' || c == '}' || c == ',' || c == '.' || c == ';' {
        // not operator or literal categories: nothing to show
    } else if c == '-' || c == '+' || c == '*' {
        lemma_one_char_atomic(s, i, );
    } else if c == '!' || c == '=' || c == '<' || c == '>' {
        if i + 1 < s.len() && s[(i + 1) as int] == '=' {
            lemma_two_char_atomic(s, i);
        } else {
            lemma_one_char_atomic(s, i);
        }
    } else if c == '/' {
        if !(i + 1 < s.len() && s[(i + 1) as int] == '/') {
            lemma_one_char_atomic(s, i);
        }
    } else if c == '\n' || c == ' ' || c == '\r' || c == '\t' || c == '"' {
        // no token, or a STRING token, whose payload is present by construction
    } else if is_digit_c(c) {
        let e = digits_end(s, i);
        lemma_digits_run(s, i);
        assert(digits_end(s, i) == digits_end(s, i + 1));
        lemma_digits_run(s, i + 1);
        if e < s.len() && s[e as int] == '.' && e + 1 < s.len() && is_digit_c(s[(e + 1) as int]) {
            let e2 = digits_end(s, e + 1);
            lemma_digits_run(s, e + 1);
            assert(digits_end(s, e + 1) == digits_end(s, (e + 2) as nat));
            lemma_digits_run(s, (e + 2) as nat);
            let txt = s.subrange(i as int, e2 as int);
            assert(no_delims(txt)) by {
                assert forall|k: int| 0 <= k < txt.len() implies !is_delim(txt[k]) by {
                    assert(txt[k] == s[i as int + k]);
                    if i + k < e {
                        assert(is_digit_c(s[i as int + k]));
                    } else if i + k == e {
                        assert(s[i as int + k] == '.');
                    } else {
                        assert(is_digit_c(s[i as int + k]));
                    }
                }
            }
            assert(atomic(txt));
        } else {
            let txt = s.subrange(i as int, e as int);
            assert(no_delims(txt)) by {
                assert forall|k: int| 0 <= k < txt.len() implies !is_delim(txt[k]) by {
                    assert(txt[k] == s[i as int + k]);
                    assert(is_digit_c(s[i as int + k]));
                }
            }
            assert(atomic(txt));
        }
    }
}

/// Every token the scan model produces from a position on is well-shaped.
proof fn lemma_lex_from_shapely(s: Seq<char>, i: nat, line: nat)
    ensures
        match lex_from(s, i, line) {
            LexR::Done(ts, fl) => all_shapely(ts),
            LexR::Fail(e) => true,
        },
    decreases s.len() - i,
{
    if i < s.len() {
        match scan_step(s, i, line) {
            StepR::Error(e) => {},
            StepR::Tokens(ts, ni, nl) => {
                lemma_scan_step_shapely(s, i, line);
                if i < ni <= s.len() {
                    lemma_lex_from_shapely(s, ni, nl);
                    match lex_from(s, ni, nl) {
                        LexR::Done(rest, fl) => {
                            assert forall|k: int|
                                0 <= k < (ts + rest).len() implies shapely_token(
                                #[trigger] (ts + rest)[k],
                            ) by {
                                if k < ts.len() {
                                    assert((ts + rest)[k] == ts[k]);
                                } else {
                                    assert((ts + rest)[k] == rest[k - ts.len()]);
                                }
                            }
                        },
                        LexR::Fail(e) => {},
                    }
                }
            },
        }
    }
}

/// Every token of a successful scan is well-shaped. (The terminating EOF
/// token carries no lexeme the grammar reads, and is well-shaped vacuously.)
pub proof fn lemma_scan_shapely(s: Seq<char>)
    ensures
        match spec_scan(s) {
            Result::Ok(ts) => all_shapely(ts),
            Result::Err(e) => true,
        },
{
    lemma_lex_from_shapely(s, 0, 1);
    match lex_from(s, 0, 1) {
        LexR::Done(ts, fl) => {
            assert forall|k: int|
                0 <= k < ts.push(eof_token(fl)).len() implies shapely_token(
                #[trigger] ts.push(eof_token(fl))[k],
            ) by {
                if k < ts.len() {
                    assert(ts.push(eof_token(fl))[k] == ts[k]);
                } else {
                    assert(ts.push(eof_token(fl))[k] == eof_token(fl));
                }
            }
        },
        LexR::Fail(e) => {},
    }
}


// ---------------------------------------------------------------------------
// Trees built by the grammar from well-shaped tokens
// ---------------------------------------------------------------------------

/// A tree whose operator tokens are well-shaped operator tokens and whose
/// literal tokens are well-shaped literal-start tokens — exactly what the
/// grammar builds from a well-shaped token sequence.
pub open spec fn tree_shapely(e: ExpV) -> bool
    decreases e,
{
    match e {
        ExpV::Binary(l, op, r) => op_kind(op.token_type) && shapely_token(op) && tree_shapely(*l)
            && tree_shapely(*r),
        ExpV::Unary(op, s) => op_kind(op.token_type) && shapely_token(op) && tree_shapely(*s),
        ExpV::Literal(t) => is_literal_start(t) && shapely_token(t),
        ExpV::Grouping(inner) => tree_shapely(*inner),
    }
}

proof fn lemma_p_expression_shapely(toks: Seq<TokenV>, i: nat)
    requires
        all_shapely(toks),
    ensures
        match p_expression(toks, i) {
            ParseR::Done(e, j) => tree_shapely(e),
            ParseR::Fail(_) => true,
        },
    decreases toks.len() - i, 10nat,
{
    lemma_p_eqality_shapely(toks, i);
}

proof fn lemma_p_eqality_shapely(toks: Seq<TokenV>, i: nat)
    requires
        all_shapely(toks),
    ensures
        match p_eqality(toks, i) {
            ParseR::Done(e, j) => tree_shapely(e),
            ParseR::Fail(_) => true,
        },
    decreases toks.len() - i, 9nat,
{
    lemma_p_comp_shapely(toks, i);
    match p_comp(toks, i) {
        ParseR::Done(e, j) => {
            if i <= j && j <= toks.len() {
                lemma_p_eqality_rest_shapely(toks, j, e);
            }
        },
        ParseR::Fail(_) => {},
    }
}

proof fn lemma_p_eqality_rest_shapely(toks: Seq<TokenV>, j: nat, acc: ExpV)
    requires
        all_shapely(toks),
        tree_shapely(acc),
    ensures
        match p_eqality_rest(toks, j, acc) {
            ParseR::Done(e, k) => tree_shapely(e),
            ParseR::Fail(_) => true,
        },
    decreases toks.len() - j, 8nat,
{
    if j < toks.len() && is_eq_op(toks[j as int]) {
        lemma_p_comp_shapely(toks, j + 1);
        match p_comp(toks, j + 1) {
            ParseR::Done(r, k) => {
                if j < k && k <= toks.len() {
                    assert(shapely_token(toks[j as int]));
                    lemma_p_eqality_rest_shapely(
                        toks,
                        k,
                        ExpV::Binary(Box::new(acc), toks[j as int], Box::new(r)),
                    );
                }
            },
            ParseR::Fail(_) => {},
        }
    }
}

proof fn lemma_p_comp_shapely(toks: Seq<TokenV>, i: nat)
    requires
        all_shapely(toks),
    ensures
        match p_comp(toks, i) {
            ParseR::Done(e, j) => tree_shapely(e),
            ParseR::Fail(_) => true,
        },
    decreases toks.len() - i, 7nat,
{
    lemma_p_term_shapely(toks, i);
    match p_term(toks, i) {
        ParseR::Done(e, j) => {
            if i <= j && j <= toks.len() {
                lemma_p_comp_rest_shapely(toks, j, e);
            }
        },
        ParseR::Fail(_) => {},
    }
}

proof fn lemma_p_comp_rest_shapely(toks: Seq<TokenV>, j: nat, acc: ExpV)
    requires
        all_shapely(toks),
        tree_shapely(acc),
    ensures
        match p_comp_rest(toks, j, acc) {
            ParseR::Done(e, k) => tree_shapely(e),
            ParseR::Fail(_) => true,
        },
    decreases toks.len() - j, 6nat,
{
    if j < toks.len() && is_comp_op(toks[j as int]) {
        lemma_p_term_shapely(toks, j + 1);
        match p_term(toks, j + 1) {
            ParseR::Done(r, k) => {
                if j < k && k <= toks.len() {
                    assert(shapely_token(toks[j as int]));
                    lemma_p_comp_rest_shapely(
                        toks,
                        k,
                        ExpV::Binary(Box::new(acc), toks[j as int], Box::new(r)),
                    );
                }
            },
            ParseR::Fail(_) => {},
        }
    }
}

proof fn lemma_p_term_shapely(toks: Seq<TokenV>, i: nat)
    requires
        all_shapely(toks),
    ensures
        match p_term(toks, i) {
            ParseR::Done(e, j) => tree_shapely(e),
            ParseR::Fail(_) => true,
        },
    decreases toks.len() - i, 5nat,
{
    lemma_p_factor_shapely(toks, i);
    match p_factor(toks, i) {
        ParseR::Done(e, j) => {
            if i <= j && j <= toks.len() {
                lemma_p_term_rest_shapely(toks, j, e);
            }
        },
        ParseR::Fail(_) => {},
    }
}

proof fn lemma_p_term_rest_shapely(toks: Seq<TokenV>, j: nat, acc: ExpV)
    requires
        all_shapely(toks),
        tree_shapely(acc),
    ensures
        match p_term_rest(toks, j, acc) {
            ParseR::Done(e, k) => tree_shapely(e),
            ParseR::Fail(_) => true,
        },
    decreases toks.len() - j, 4nat,
{
    if j < toks.len() && is_term_op(toks[j as int]) {
        lemma_p_factor_shapely(toks, j + 1);
        match p_factor(toks, j + 1) {
            ParseR::Done(r, k) => {
                if j < k && k <= toks.len() {
                    assert(shapely_token(toks[j as int]));
                    lemma_p_term_rest_shapely(
                        toks,
                        k,
                        ExpV::Binary(Box::new(acc), toks[j as int], Box::new(r)),
                    );
                }
            },
            ParseR::Fail(_) => {},
        }
    }
}

proof fn lemma_p_factor_shapely(toks: Seq<TokenV>, i: nat)
    requires
        all_shapely(toks),
    ensures
        match p_factor(toks, i) {
            ParseR::Done(e, j) => tree_shapely(e),
            ParseR::Fail(_) => true,
        },
    decreases toks.len() - i, 3nat,
{
    lemma_p_unary_shapely(toks, i);
    match p_unary(toks, i) {
        ParseR::Done(e, j) => {
            if i <= j && j <= toks.len() {
                lemma_p_factor_rest_shapely(toks, j, e);
            }
        },
        ParseR::Fail(_) => {},
    }
}

proof fn lemma_p_factor_rest_shapely(toks: Seq<TokenV>, j: nat, acc: ExpV)
    requires
        all_shapely(toks),
        tree_shapely(acc),
    ensures
        match p_factor_rest(toks, j, acc) {
            ParseR::Done(e, k) => tree_shapely(e),
            ParseR::Fail(_) => true,
        },
    decreases toks.len() - j, 2nat,
{
    if j < toks.len() && is_factor_op(toks[j as int]) {
        lemma_p_unary_shapely(toks, j + 1);
        match p_unary(toks, j + 1) {
            ParseR::Done(r, k) => {
                if j < k && k <= toks.len() {
                    assert(shapely_token(toks[j as int]));
                    lemma_p_factor_rest_shapely(
                        toks,
                        k,
                        ExpV::Binary(Box::new(acc), toks[j as int], Box::new(r)),
                    );
                }
            },
            ParseR::Fail(_) => {},
        }
    }
}

proof fn lemma_p_unary_shapely(toks: Seq<TokenV>, i: nat)
    requires
        all_shapely(toks),
    ensures
        match p_unary(toks, i) {
            ParseR::Done(e, j) => tree_shapely(e),
            ParseR::Fail(_) => true,
        },
    decreases toks.len() - i, 1nat,
{
    if i < toks.len() && is_unary_op(toks[i as int]) {
        assert(shapely_token(toks[i as int]));
        lemma_p_unary_shapely(toks, i + 1);
    } else {
        lemma_p_primary_shapely(toks, i);
    }
}

proof fn lemma_p_primary_shapely(toks: Seq<TokenV>, i: nat)
    requires
        all_shapely(toks),
    ensures
        match p_primary(toks, i) {
            ParseR::Done(e, j) => tree_shapely(e),
            ParseR::Fail(_) => true,
        },
    decreases toks.len() - i, 0nat,
{
    if i < toks.len() {
        assert(shapely_token(toks[i as int]));
        let t = toks[i as int];
        if !is_literal_start(t) && t.token_type == TokenType::LeftPara {
            lemma_p_expression_shapely(toks, i + 1);
        }
    }
}


// ---------------------------------------------------------------------------
// From well-shaped trees to printable trees
// ---------------------------------------------------------------------------

proof fn lemma_atomic_keywords()
    ensures
        atomic("true"@),
        atomic("false"@),
        atomic("nil"@),
{
    reveal_strlit("true");
    reveal_strlit("false");
    reveal_strlit("nil");
    assert forall|k: int| 0 <= k < "true"@.len() implies !is_delim("true"@[k]) by {
        if k == 0 {
            assert("true"@[0] == 't');
        } else if k == 1 {
            assert("true"@[1] == 'r');
        } else if k == 2 {
            assert("true"@[2] == 'u');
        } else {
            assert("true"@[3] == 'e');
        }
    }
    assert forall|k: int| 0 <= k < "false"@.len() implies !is_delim("false"@[k]) by {
        if k == 0 {
            assert("false"@[0] == 'f');
        } else if k == 1 {
            assert("false"@[1] == 'a');
        } else if k == 2 {
            assert("false"@[2] == 'l');
        } else if k == 3 {
            assert("false"@[3] == 's');
        } else {
            assert("false"@[4] == 'e');
        }
    }
    assert forall|k: int| 0 <= k < "nil"@.len() implies !is_delim("nil"@[k]) by {
        if k == 0 {
            assert("nil"@[0] == 'n');
        } else if k == 1 {
            assert("nil"@[1] == 'i');
        } else {
            assert("nil"@[2] == 'l');
        }
    }
}

/// Whether every string literal in the tree has atomic text. String literal
/// text is arbitrary source text, so this is the one condition the pipeline
/// cannot guarantee by itself.
pub open spec fn strings_atomic(e: ExpV) -> bool
    decreases e,
{
    match e {
        ExpV::Binary(l, op, r) => strings_atomic(*l) && strings_atomic(*r),
        ExpV::Unary(op, s) => strings_atomic(*s),
        ExpV::Literal(t) => t.token_type == TokenType::STRING ==> match t.literal {
            Option::Some(LitV::Str(c)) => atomic(c),
            _ => true,
        },
        ExpV::Grouping(inner) => strings_atomic(*inner),
    }
}

/// A well-shaped tree whose string literals are atomic is printable.
proof fn lemma_shapely_tree_printable(e: ExpV)
    requires
        tree_shapely(e),
        strings_atomic(e),
    ensures
        wf_printable(e),
    decreases e,
{
    lemma_atomic_keywords();
    match e {
        ExpV::Binary(l, op, r) => {
            lemma_shapely_tree_printable(*l);
            lemma_shapely_tree_printable(*r);
        },
        ExpV::Unary(op, s) => {
            lemma_shapely_tree_printable(*s);
        },
        ExpV::Literal(t) => {},
        ExpV::Grouping(inner) => {
            lemma_shapely_tree_printable(*inner);
        },
    }
}

/// The pipeline law: every tree parsed from a scanned source is printable —
/// its canonical form can be read back to its exact shape (see the printing
/// law) — as long as its string literals are atomic. Operator lexemes and
/// number literals come out of the scanner well-shaped by construction; only
/// a string literal, whose text is arbitrary source text, can make the
/// printed form ambiguous.
pub proof fn lemma_parsed_trees_are_printable(src: Seq<char>)
    ensures
        match spec_scan(src) {
            Result::Ok(ts) => match p_expression(ts, 0) {
                ParseR::Done(e, j) => strings_atomic(e) ==> wf_printable(e),
                ParseR::Fail(_) => true,
            },
            Result::Err(_) => true,
        },
{
    lemma_scan_shapely(src);
    match spec_scan(src) {
        Result::Ok(ts) => {
            lemma_p_expression_shapely(ts, 0);
            match p_expression(ts, 0) {
                ParseR::Done(e, j) => {
                    if strings_atomic(e) {
                        lemma_shapely_tree_printable(e);
                    }
                },
                ParseR::Fail(_) => {},
            }
        },
        Result::Err(_) => {},
    }
}


// ---------------------------------------------------------------------------
// One pass over a source text
// ---------------------------------------------------------------------------

/// Scans a source text, parses one expression from its tokens, and renders
/// the canonical parenthesized form — or reports the first error of the
/// pass.
pub fn render_source(source: String) -> (r: Result<String, Errors>)
    requires
        source@.len() < usize::MAX,
    ensures
        match spec_scan(source@) {
            Result::Ok(ts) => match p_expression(ts, 0) {
                ParseR::Done(e, j) => match r {
                    Result::Ok(out) => out@ == pp_view(e),
                    Result::Err(_) => false,
                },
                ParseR::Fail(er) => r == Result::<String, Errors>::Err(er),
            },
            Result::Err(er) => r == Result::<String, Errors>::Err(er),
        },
{
    let mut lexer = Lexer::new(source);
    let tokens = match lexer.scan_tokens() {
        Result::Ok(tokens) => tokens,
        Result::Err(er) => {
            return Result::Err(er);
        },
    };
    let mut parser = Parser::new(tokens);
    match parser.parse() {
        Result::Ok(exp) => Result::Ok(PrettyPrint.print(&exp)),
        Result::Err(er) => Result::Err(er),
    }
}

} // verus!
