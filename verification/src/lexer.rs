use vstd::prelude::*;

use crate::error_handler::Errors;
use crate::tokens::{clone_token, spec_literal_view, views_of_tokens, LitV, LiteralType, Token, TokenType, TokenV};

verus! {

// ---------------------------------------------------------------------------
// Character classes
// ---------------------------------------------------------------------------

/// A decimal digit: exactly the characters '0' through '9' (code points 48
/// through 57).
pub open spec fn is_digit_c(c: char) -> bool {
    48 <= (c as u32) && (c as u32) <= 57
}

/// Whether `char::is_alphabetic` accepts the character.
pub uninterp spec fn is_alpha_char(c: char) -> bool;

/// Whether `char::is_alphanumeric` accepts the character.
pub uninterp spec fn is_alnum_char(c: char) -> bool;

/// Relies on char::is_alphabetic: whether the character has the Unicode
/// Alphabetic property, a function of the character alone.
#[verifier::external_body]
fn char_is_alphabetic(c: char) -> (r: bool)
    ensures
        r == is_alpha_char(c),
{
    c.is_alphabetic()
}

/// Relies on char::is_alphanumeric: whether the character is Unicode
/// alphanumeric, a function of the character alone.
#[verifier::external_body]
fn char_is_alphanumeric(c: char) -> (r: bool)
    ensures
        r == is_alnum_char(c),
{
    c.is_alphanumeric()
}

/// Relies on String's FromIterator over char: the collected string holds
/// exactly the characters of the vector, in order.
#[verifier::external_body]
fn chars_to_string(v: &Vec<char>) -> (s: String)
    ensures
        s@ == v@,
{
    v.iter().collect()
}

fn exec_is_digit(c: char) -> (r: bool)
    ensures
        r == is_digit_c(c),
{
    let u = c as u32;
    48 <= u && u <= 57
}

// ---------------------------------------------------------------------------
// Scan positions: where a run of digits, a run of alphanumerics, a comment or
// a string literal ends.
// ---------------------------------------------------------------------------

/// The first index at or after `from` holding a newline, or the length of the
/// source when there is none.
pub open spec fn find_newline(s: Seq<char>, from: nat) -> nat
    decreases s.len() - from,
{
    if from >= s.len() {
        s.len()
    } else if s[from as int] == '\n' {
        from
    } else {
        find_newline(s, from + 1)
    }
}

/// The first index at or after `from` holding a double quote, or the length
/// of the source when there is none.
pub open spec fn find_quote(s: Seq<char>, from: nat) -> nat
    decreases s.len() - from,
{
    if from >= s.len() {
        s.len()
    } else if s[from as int] == '"' {
        from
    } else {
        find_quote(s, from + 1)
    }
}

/// The first index at or after `from` holding a non-digit, or the length of
/// the source when the digits run to its end.
pub open spec fn digits_end(s: Seq<char>, from: nat) -> nat
    decreases s.len() - from,
{
    if from >= s.len() {
        s.len()
    } else if is_digit_c(s[from as int]) {
        digits_end(s, from + 1)
    } else {
        from
    }
}

/// The first index at or after `from` holding a non-alphanumeric character,
/// or the length of the source.
pub open spec fn alnum_end(s: Seq<char>, from: nat) -> nat
    decreases s.len() - from,
{
    if from >= s.len() {
        s.len()
    } else if is_alnum_char(s[from as int]) {
        alnum_end(s, from + 1)
    } else {
        from
    }
}

/// How many newline characters the sequence holds.
pub open spec fn count_nl(s: Seq<char>) -> nat
    decreases s.len(),
{
    if s.len() == 0 {
        0
    } else {
        count_nl(s.drop_last()) + if s.last() == '\n' {
            1nat
        } else {
            0nat
        }
    }
}

proof fn lemma_find_newline_bounds(s: Seq<char>, from: nat)
    requires
        from <= s.len(),
    ensures
        from <= find_newline(s, from) <= s.len(),
    decreases s.len() - from,
{
    if from < s.len() && s[from as int] != '\n' {
        lemma_find_newline_bounds(s, from + 1);
    }
}

proof fn lemma_find_quote_bounds(s: Seq<char>, from: nat)
    requires
        from <= s.len(),
    ensures
        from <= find_quote(s, from) <= s.len(),
    decreases s.len() - from,
{
    if from < s.len() && s[from as int] != '"' {
        lemma_find_quote_bounds(s, from + 1);
    }
}

proof fn lemma_digits_end_bounds(s: Seq<char>, from: nat)
    requires
        from <= s.len(),
    ensures
        from <= digits_end(s, from) <= s.len(),
    decreases s.len() - from,
{
    if from < s.len() && is_digit_c(s[from as int]) {
        lemma_digits_end_bounds(s, from + 1);
    }
}

proof fn lemma_alnum_end_bounds(s: Seq<char>, from: nat)
    requires
        from <= s.len(),
    ensures
        from <= alnum_end(s, from) <= s.len(),
    decreases s.len() - from,
{
    if from < s.len() && is_alnum_char(s[from as int]) {
        lemma_alnum_end_bounds(s, from + 1);
    }
}

// ---------------------------------------------------------------------------
// The keyword table
// ---------------------------------------------------------------------------

/// The token category of an identifier-shaped lexeme: a reserved keyword's
/// category for the fifteen keywords, IDENTIFIER for everything else.
pub open spec fn spec_keyword(t: Seq<char>) -> TokenType {
    if t == "and"@ {
        TokenType::AND
    } else if t == "class"@ {
        TokenType::CLASS
    } else if t == "else"@ {
        TokenType::ELSE
    } else if t == "false"@ {
        TokenType::FALSE
    } else if t == "fun"@ {
        TokenType::FUN
    } else if t == "for"@ {
        TokenType::FOR
    } else if t == "if"@ {
        TokenType::IF
    } else if t == "nil"@ {
        TokenType::NIL
    } else if t == "or"@ {
        TokenType::OR
    } else if t == "print"@ {
        TokenType::PRINT
    } else if t == "return"@ {
        TokenType::RETURN
    } else if t == "this"@ {
        TokenType::THIS
    } else if t == "true"@ {
        TokenType::TRUE
    } else if t == "let"@ {
        TokenType::LET
    } else if t == "while"@ {
        TokenType::WHILE
    } else {
        TokenType::IDENTIFIER
    }
}

// ---------------------------------------------------------------------------
// One scan step
// ---------------------------------------------------------------------------

/// What one step of the scan produces: the tokens it emits (none for
/// whitespace and comments, two when a number is terminated by a stray dot),
/// the next cursor position and the next line counter; or the error that
/// aborts the whole scan.
pub ghost enum StepR {
    Tokens(Seq<TokenV>, nat, nat),
    Error(Errors),
}

pub open spec fn tokv(token_type: TokenType, text: Seq<char>, literal: Option<LitV>, line: nat) -> TokenV {
    TokenV { token_type, text, literal, line }
}

/// A single-character token at position `i`.
pub open spec fn step_single(s: Seq<char>, i: nat, line: nat, tt: TokenType) -> StepR {
    StepR::Tokens(seq![tokv(tt, s.subrange(i as int, (i + 1) as int), Option::None, line)], i + 1, line)
}

/// A one-character lookahead merge: the two-character token when '=' follows,
/// the shorter single-character token otherwise.
pub open spec fn step_pair(s: Seq<char>, i: nat, line: nat, two: TokenType, one: TokenType) -> StepR {
    if i + 1 < s.len() && s[(i + 1) as int] == '=' {
        StepR::Tokens(seq![tokv(two, s.subrange(i as int, (i + 2) as int), Option::None, line)], i + 2, line)
    } else {
        step_single(s, i, line, one)
    }
}

/// A string literal beginning at the quote at `i`: its lexeme includes both
/// quotes, its payload is the exact text between them, and the line counter
/// advances over every newline inside it. Reaching the end of input without a
/// closing quote is an error.
pub open spec fn step_string(s: Seq<char>, i: nat, line: nat) -> StepR {
    let j = find_quote(s, i + 1);
    if j >= s.len() {
        StepR::Error(Errors::UntermitedString)
    } else {
        let content = s.subrange((i + 1) as int, j as int);
        StepR::Tokens(
            seq![
                tokv(
                    TokenType::STRING,
                    s.subrange(i as int, (j + 1) as int),
                    Option::Some(LitV::Str(content)),
                    line + count_nl(content),
                ),
            ],
            j + 1,
            line + count_nl(content),
        )
    }
}

pub open spec fn number_tok(s: Seq<char>, i: nat, e: nat, line: nat) -> TokenV {
    tokv(
        TokenType::NUMBER,
        s.subrange(i as int, e as int),
        Option::Some(LitV::Number(s.subrange(i as int, e as int))),
        line,
    )
}

/// A number literal beginning at the digit at `i`: a maximal run of digits,
/// then optionally a dot followed by at least one digit and that fractional
/// run. A dot not followed by a digit is not part of the number: the number
/// ends right before it and the dot comes out as its own DOT token.
pub open spec fn step_number(s: Seq<char>, i: nat, line: nat) -> StepR {
    let e = digits_end(s, i);
    if e < s.len() && s[e as int] == '.' {
        if e + 1 < s.len() && is_digit_c(s[(e + 1) as int]) {
            let e2 = digits_end(s, e + 1);
            StepR::Tokens(seq![number_tok(s, i, e2, line)], e2, line)
        } else {
            StepR::Tokens(
                seq![
                    number_tok(s, i, e, line),
                    tokv(TokenType::DOT, s.subrange(e as int, (e + 1) as int), Option::None, line),
                ],
                e + 1,
                line,
            )
        }
    } else {
        StepR::Tokens(seq![number_tok(s, i, e, line)], e, line)
    }
}

/// An identifier beginning at `i`: a maximal run of alphanumeric characters
/// after the first, classified against the keyword table.
pub open spec fn step_identifier(s: Seq<char>, i: nat, line: nat) -> StepR {
    let e = alnum_end(s, i + 1);
    let text = s.subrange(i as int, e as int);
    StepR::Tokens(seq![tokv(spec_keyword(text), text, Option::None, line)], e, line)
}

/// One step of the scan at position `i`, dispatching on the character there,
/// in the priority order of the scanning rules: punctuation, two-character
/// operators, comments, whitespace, string literals, numbers, identifiers;
/// anything else is an unexpected character and aborts the scan.
pub open spec fn scan_step(s: Seq<char>, i: nat, line: nat) -> StepR
    recommends
        i < s.len(),
{
    let c = s[i as int];
    if c == '(' {
        step_single(s, i, line, TokenType::LeftPara)
    } else if c == ')' {
        step_single(s, i, line, TokenType::RightPara)
    } else if c == '{' {
        step_single(s, i, line, TokenType::LeftBrace)
    } else if c == '}' {
        step_single(s, i, line, TokenType::RightBrace)
    } else if c == ',' {
        step_single(s, i, line, TokenType::COMMA)
    } else if c == '.' {
        step_single(s, i, line, TokenType::DOT)
    } else if c == '-' {
        step_single(s, i, line, TokenType::MINUS)
    } else if c == '+' {
        step_single(s, i, line, TokenType::PLUS)
    } else if c == ';' {
        step_single(s, i, line, TokenType::SEMICOLON)
    } else if c == '*' {
        step_single(s, i, line, TokenType::STAR)
    } else if c == '!' {
        step_pair(s, i, line, TokenType::BangEqual, TokenType::BANG)
    } else if c == '=' {
        step_pair(s, i, line, TokenType::EqualEqual, TokenType::EQUAL)
    } else if c == '<' {
        step_pair(s, i, line, TokenType::LessEqual, TokenType::LESS)
    } else if c == '>' {
        step_pair(s, i, line, TokenType::GreaterEqual, TokenType::GREATER)
    } else if c == '/' {
        if i + 1 < s.len() && s[(i + 1) as int] == '/' {
            StepR::Tokens(seq![], find_newline(s, i + 2), line)
        } else {
            step_single(s, i, line, TokenType::SLASH)
        }
    } else if c == '\n' {
        StepR::Tokens(seq![], i + 1, line + 1)
    } else if c == ' ' || c == '\r' || c == '\t' {
        StepR::Tokens(seq![], i + 1, line)
    } else if c == '"' {
        step_string(s, i, line)
    } else if is_digit_c(c) {
        step_number(s, i, line)
    } else if is_alpha_char(c) || c == '_' {
        step_identifier(s, i, line)
    } else {
        StepR::Error(Errors::UnexpectedChar)
    }
}

/// Every step that does not abort consumes at least one character and stays
/// inside the source.
pub proof fn lemma_scan_step_progress(s: Seq<char>, i: nat, line: nat)
    requires
        i < s.len(),
    ensures
        match scan_step(s, i, line) {
            StepR::Tokens(ts, ni, nl) => i < ni <= s.len(),
            StepR::Error(e) => true,
        },
{
    let c = s[i as int];
    if c == '/' && i + 1 < s.len() && s[(i + 1) as int] == '/' {
        lemma_find_newline_bounds(s, i + 2);
    } else if c == '"' {
        lemma_find_quote_bounds(s, i + 1);
    } else if is_digit_c(c) {
        lemma_digits_end_bounds(s, i);
        assert(digits_end(s, i) == digits_end(s, i + 1));
        lemma_digits_end_bounds(s, i + 1);
        let e = digits_end(s, i);
        if e < s.len() && s[e as int] == '.' && e + 1 < s.len() && is_digit_c(s[(e + 1) as int]) {
            lemma_digits_end_bounds(s, e + 1);
        }
    } else if !(c == '(' || c == ')' || c == '{' || c == '}' || c == ',' || c == '.' || c == '-'
        || c == '+' || c == ';' || c == '*' || c == '!' || c == '=' || c == '<' || c == '>' || c
        == '\n' || c == ' ' || c == '\r' || c == '\t') && (is_alpha_char(c) || c == '_') {
        lemma_alnum_end_bounds(s, i + 1);
    }
}

// ---------------------------------------------------------------------------
// The whole scan
// ---------------------------------------------------------------------------

/// Outcome of scanning from a position to the end of the source: the tokens
/// produced (without the final EOF token) and the final line counter, or the
/// first error.
pub ghost enum LexR {
    Done(Seq<TokenV>, nat),
    Fail(Errors),
}

/// The tokens from position `i` to the end of the source, produced step by
/// step. Each step consumes at least one character, which bounds the
/// recursion; the guard on the step's next position can therefore never fail.
pub open spec fn lex_from(s: Seq<char>, i: nat, line: nat) -> LexR
    decreases s.len() - i,
{
    if i >= s.len() {
        LexR::Done(Seq::empty(), line)
    } else {
        match scan_step(s, i, line) {
            StepR::Error(e) => LexR::Fail(e),
            StepR::Tokens(ts, ni, nl) => if i < ni <= s.len() {
                match lex_from(s, ni, nl) {
                    LexR::Done(rest, fl) => LexR::Done(ts + rest, fl),
                    LexR::Fail(e) => LexR::Fail(e),
                }
            } else {
                LexR::Fail(Errors::UnexpectedChar)
            },
        }
    }
}

/// The EOF token appended after the last real token: empty lexeme, no
/// literal, the final line counter.
pub open spec fn eof_token(line: nat) -> TokenV {
    TokenV { token_type: TokenType::EOF, text: Seq::empty(), literal: Option::None, line }
}

/// The full scan of a source text: its tokens followed by exactly one EOF
/// token, or the first error.
pub open spec fn spec_scan(s: Seq<char>) -> Result<Seq<TokenV>, Errors> {
    match lex_from(s, 0, 1) {
        LexR::Done(ts, fl) => Result::Ok(ts.push(eof_token(fl))),
        LexR::Fail(e) => Result::Err(e),
    }
}


// ---------------------------------------------------------------------------
// Helper lemmas for the executable scanner
// ---------------------------------------------------------------------------

proof fn lemma_views_push(ts: Seq<Token>, t: Token)
    ensures
        views_of_tokens(ts.push(t)) == views_of_tokens(ts).push(t@),
{
    assert(views_of_tokens(ts.push(t)) =~= views_of_tokens(ts).push(t@));
}

proof fn lemma_count_nl_extend(s: Seq<char>, a: nat, k: nat)
    requires
        a <= k < s.len(),
    ensures
        count_nl(s.subrange(a as int, (k + 1) as int)) == count_nl(s.subrange(a as int, k as int))
            + if s[k as int] == '\n' { 1nat } else { 0nat },
{
    let grown = s.subrange(a as int, (k + 1) as int);
    assert(grown.drop_last() =~= s.subrange(a as int, k as int));
    assert(grown.last() == s[k as int]);
}

// ---------------------------------------------------------------------------
// Small executable helpers
// ---------------------------------------------------------------------------

/// The characters of the vector between `from` and `to`.
fn sub_chars(v: &Vec<char>, from: usize, to: usize) -> (r: Vec<char>)
    requires
        from <= to <= v@.len(),
    ensures
        r@ == v@.subrange(from as int, to as int),
{
    let mut r: Vec<char> = Vec::new();
    let mut k = from;
    while k < to
        invariant
            from <= k <= to <= v@.len(),
            r@ == v@.subrange(from as int, k as int),
        decreases to - k,
    {
        r.push(v[k]);
        k = k + 1;
        proof {
            assert(v@.subrange(from as int, k as int) =~= v@.subrange(
                from as int,
                (k - 1) as int,
            ).push(v@[k - 1]));
        }
    }
    r
}

/// A fresh token list equal to the given one, token by token.
fn clone_tokens(v: &Vec<Token>) -> (r: Vec<Token>)
    ensures
        views_of_tokens(r@) == views_of_tokens(v@),
        r@.len() == v@.len(),
{
    let mut r: Vec<Token> = Vec::new();
    let mut k: usize = 0;
    while k < v.len()
        invariant
            k <= v@.len(),
            r@.len() == k,
            views_of_tokens(r@) == views_of_tokens(v@.subrange(0, k as int)),
        decreases v@.len() - k,
    {
        let t = clone_token(&v[k]);
        proof {
            lemma_views_push(r@, t);
            assert(v@.subrange(0, (k + 1) as int) =~= v@.subrange(0, k as int).push(v@[k as int]));
            lemma_views_push(v@.subrange(0, k as int), v[k as int]);
        }
        r.push(t);
        k = k + 1;
    }
    proof {
        assert(v@.subrange(0, v@.len() as int) =~= v@);
    }
    r
}

/// The keyword table as executable code.
fn keyword_kind(t: &String) -> (k: TokenType)
    ensures
        k == spec_keyword(t@),
{
    if *t == "and".to_owned() {
        TokenType::AND
    } else if *t == "class".to_owned() {
        TokenType::CLASS
    } else if *t == "else".to_owned() {
        TokenType::ELSE
    } else if *t == "false".to_owned() {
        TokenType::FALSE
    } else if *t == "fun".to_owned() {
        TokenType::FUN
    } else if *t == "for".to_owned() {
        TokenType::FOR
    } else if *t == "if".to_owned() {
        TokenType::IF
    } else if *t == "nil".to_owned() {
        TokenType::NIL
    } else if *t == "or".to_owned() {
        TokenType::OR
    } else if *t == "print".to_owned() {
        TokenType::PRINT
    } else if *t == "return".to_owned() {
        TokenType::RETURN
    } else if *t == "this".to_owned() {
        TokenType::THIS
    } else if *t == "true".to_owned() {
        TokenType::TRUE
    } else if *t == "let".to_owned() {
        TokenType::LET
    } else if *t == "while".to_owned() {
        TokenType::WHILE
    } else {
        TokenType::IDENTIFIER
    }
}

// ---------------------------------------------------------------------------
// The Lexer
// ---------------------------------------------------------------------------

/// Converts a source string into its token sequence in a single left-to-right
/// pass, tracking line numbers, collapsing comments and whitespace, and
/// classifying identifiers against the keyword table.
pub struct Lexer {
    source: Vec<char>,
    pub token_list: Vec<Token>,
    start: usize,
    current: usize,
    line: usize,
}

impl Lexer {
    /// The source text being scanned.
    pub closed spec fn src(&self) -> Seq<char> {
        self.source@
    }

    /// The scanner's structural invariant: the cursor stays inside the
    /// source, and the line counter can have grown at most once per consumed
    /// character.
    pub closed spec fn wf(&self) -> bool {
        &&& self.source@.len() < usize::MAX
        &&& self.current <= self.source@.len()
        &&& self.line >= 1
        &&& self.line <= 1 + self.current
    }

    /// Views of the tokens scanned so far.
    pub closed spec fn scanned(&self) -> Seq<TokenV> {
        views_of_tokens(self.token_list@)
    }

    /// A lexer that has not scanned anything yet.
    pub closed spec fn fresh(&self) -> bool {
        &&& self.wf()
        &&& self.current == 0
        &&& self.line == 1
        &&& self.token_list@ == Seq::<Token>::empty()
    }

    pub fn new(source: String) -> (r: Lexer)
        requires
            source@.len() < usize::MAX,
        ensures
            r.src() == source@,
            r.fresh(),
    {
        let s = source.as_str();
        let n = s.unicode_len();
        let mut chars: Vec<char> = Vec::new();
        let mut k: usize = 0;
        while k < n
            invariant
                k <= n,
                n == s@.len(),
                chars@ == s@.subrange(0, k as int),
        decreases n - k,
        {
            chars.push(s.get_char(k));
            k = k + 1;
            proof {
                assert(s@.subrange(0, k as int) =~= s@.subrange(0, (k - 1) as int).push(
                    s@[k - 1],
                ));
            }
        }
        proof {
            assert(s@.subrange(0, s@.len() as int) =~= s@);
        }
        Lexer { source: chars, token_list: Vec::new(), start: 0, current: 0, line: 1 }
    }
}

/// Prefixing already-produced tokens onto the outcome of the rest of a scan.
pub open spec fn lex_prepend(pre: Seq<TokenV>, r: LexR) -> LexR {
    match r {
        LexR::Done(rest, fl) => LexR::Done(pre + rest, fl),
        LexR::Fail(e) => LexR::Fail(e),
    }
}

proof fn lemma_prepend_assoc(a: Seq<TokenV>, b: Seq<TokenV>, r: LexR)
    ensures
        lex_prepend(a, lex_prepend(b, r)) == lex_prepend(a + b, r),
{
    match r {
        LexR::Done(rest, fl) => {
            assert(a + (b + rest) =~= (a + b) + rest);
        },
        LexR::Fail(_) => {},
    }
}

proof fn lemma_push_is_plus_one(a: Seq<TokenV>, x: TokenV)
    ensures
        a.push(x) == a + seq![x],
{
    assert(a.push(x) =~= a + seq![x]);
}

proof fn lemma_push_two_is_plus(a: Seq<TokenV>, x: TokenV, y: TokenV)
    ensures
        a.push(x).push(y) == a + seq![x, y],
{
    assert(a.push(x).push(y) =~= a + seq![x, y]);
}

impl Lexer {
    /// Appends one token whose lexeme is the source text between `start` and
    /// `current`.
    fn add_token_with_literal(&mut self, token_type: TokenType, literal: Option<LiteralType>)
        requires
            old(self).wf(),
            old(self).start <= old(self).current <= old(self).src().len(),
        ensures
            final(self).wf(),
            final(self).src() == old(self).src(),
            final(self).start == old(self).start,
            final(self).current == old(self).current,
            final(self).line == old(self).line,
            views_of_tokens(final(self).token_list@) == views_of_tokens(old(self).token_list@).push(
                tokv(
                    token_type,
                    old(self).src().subrange(old(self).start as int, old(self).current as int),
                    spec_literal_view(literal),
                    old(self).line as nat,
                ),
            ),
    {
        let text_v = sub_chars(&self.source, self.start, self.current);
        let text = chars_to_string(&text_v);
        let t = Token::new(token_type, text, literal, self.line);
        proof {
            lemma_views_push(self.token_list@, t);
        }
        self.token_list.push(t);
    }

    fn add_token(&mut self, token_type: TokenType)
        requires
            old(self).wf(),
            old(self).start <= old(self).current <= old(self).src().len(),
        ensures
            final(self).wf(),
            final(self).src() == old(self).src(),
            final(self).start == old(self).start,
            final(self).current == old(self).current,
            final(self).line == old(self).line,
            views_of_tokens(final(self).token_list@) == views_of_tokens(old(self).token_list@).push(
                tokv(
                    token_type,
                    old(self).src().subrange(old(self).start as int, old(self).current as int),
                    Option::None,
                    old(self).line as nat,
                ),
            ),
    {
        self.add_token_with_literal(token_type, Option::None);
    }

    /// Consumes the next character exactly when it equals the pattern.
    fn match_next(&mut self, pattern: char) -> (r: bool)
        requires
            old(self).wf(),
        ensures
            final(self).wf(),
            final(self).src() == old(self).src(),
            final(self).start == old(self).start,
            final(self).line == old(self).line,
            final(self).token_list == old(self).token_list,
            if old(self).current < old(self).src().len() && old(self).src()[old(
                self,
            ).current as int] == pattern {
                r && final(self).current == old(self).current + 1
            } else {
                !r && final(self).current == old(self).current
            },
    {
        if self.current < self.source.len() && self.source[self.current] == pattern {
            self.current = self.current + 1;
            true
        } else {
            false
        }
    }

    /// Scans a string literal; `start` sits on the opening quote and the
    /// cursor just after it.
    fn string(&mut self) -> (r: Result<(), Errors>)
        requires
            old(self).wf(),
            old(self).start < old(self).src().len(),
            old(self).current == old(self).start + 1,
        ensures
            final(self).wf(),
            final(self).src() == old(self).src(),
            match step_string(old(self).src(), old(self).start as nat, old(self).line as nat) {
                StepR::Tokens(ts, ni, nl) => {
                    &&& r is Ok
                    &&& views_of_tokens(final(self).token_list@) == views_of_tokens(
                        old(self).token_list@,
                    ) + ts
                    &&& final(self).current == ni
                    &&& final(self).line == nl
                },
                StepR::Error(e) => r == Result::<(), Errors>::Err(e),
            },
    {
        let ghost s = self.source@;
        let ghost i = self.start as nat;
        let n = self.source.len();
        proof {
            assert(s.subrange((i + 1) as int, (i + 1) as int) =~= Seq::<char>::empty());
        }
        while self.current < n && self.source[self.current] != '"'
            invariant
                self.wf(),
                self.src() == s,
                n == s.len(),
                self.start == old(self).start,
                self.token_list == old(self).token_list,
                i + 1 <= self.current <= n,
                find_quote(s, i + 1) == find_quote(s, self.current as nat),
                self.line == old(self).line + count_nl(
                    s.subrange((i + 1) as int, self.current as int),
                ),
            decreases n - self.current,
        {
            if self.source[self.current] == '\n' {
                self.line = self.line + 1;
            }
            self.current = self.current + 1;
            proof {
                lemma_count_nl_extend(s, (i + 1) as nat, (self.current - 1) as nat);
            }
        }
        if self.current == n {
            return Result::Err(Errors::UntermitedString);
        }
        let ghost j = self.current as nat;
        let content_v = sub_chars(&self.source, self.start + 1, self.current);
        let content = chars_to_string(&content_v);
        self.current = self.current + 1;
        self.add_token_with_literal(TokenType::STRING, Option::Some(LiteralType::Str(content)));
        proof {
            lemma_push_is_plus_one(
                views_of_tokens(old(self).token_list@),
                tokv(
                    TokenType::STRING,
                    s.subrange(i as int, (j + 1) as int),
                    Option::Some(LitV::Str(s.subrange((i + 1) as int, j as int))),
                    self.line as nat,
                ),
            );
        }
        Result::Ok(())
    }

    /// Scans a number literal; `start` sits on its first digit and the cursor
    /// just after it.
    fn number(&mut self)
        requires
            old(self).wf(),
            old(self).start < old(self).src().len(),
            old(self).current == old(self).start + 1,
            is_digit_c(old(self).src()[old(self).start as int]),
        ensures
            final(self).wf(),
            final(self).src() == old(self).src(),
            match step_number(old(self).src(), old(self).start as nat, old(self).line as nat) {
                StepR::Tokens(ts, ni, nl) => {
                    &&& views_of_tokens(final(self).token_list@) == views_of_tokens(
                        old(self).token_list@,
                    ) + ts
                    &&& final(self).current == ni
                    &&& final(self).line == nl
                },
                StepR::Error(e) => false,
            },
    {
        let ghost s = self.source@;
        let ghost i = self.start as nat;
        let n = self.source.len();
        proof {
            assert(digits_end(s, i) == digits_end(s, i + 1));
        }
        while self.current < n && exec_is_digit(self.source[self.current])
            invariant
                self.wf(),
                self.src() == s,
                n == s.len(),
                self.start == old(self).start,
                self.line == old(self).line,
                self.token_list == old(self).token_list,
                i + 1 <= self.current <= n,
                digits_end(s, i) == digits_end(s, self.current as nat),
            decreases n - self.current,
        {
            self.current = self.current + 1;
        }
        let ghost e = self.current as nat;
        assert(e == digits_end(s, i));
        if self.current < n && self.source[self.current] == '.' {
            let has_frac = self.current + 1 < n && exec_is_digit(self.source[self.current + 1]);
            if has_frac {
                self.current = self.current + 1;
                proof {
                    assert(digits_end(s, e + 1) == digits_end(s, (e + 2) as nat));
                }
                while self.current < n && exec_is_digit(self.source[self.current])
                    invariant
                        self.wf(),
                        self.src() == s,
                        n == s.len(),
                        self.start == old(self).start,
                        self.line == old(self).line,
                        self.token_list == old(self).token_list,
                        e + 1 <= self.current <= n,
                        digits_end(s, e + 1) == digits_end(s, self.current as nat),
                    decreases n - self.current,
                {
                    self.current = self.current + 1;
                }
                let lit_v = sub_chars(&self.source, self.start, self.current);
                let lit = chars_to_string(&lit_v);
                self.add_token_with_literal(TokenType::NUMBER, Option::Some(LiteralType::Number(lit)));
                proof {
                    lemma_push_is_plus_one(
                        views_of_tokens(old(self).token_list@),
                        number_tok(s, i, self.current as nat, self.line as nat),
                    );
                }
            } else {
                let lit_v = sub_chars(&self.source, self.start, self.current);
                let lit = chars_to_string(&lit_v);
                self.add_token_with_literal(TokenType::NUMBER, Option::Some(LiteralType::Number(lit)));
                self.start = self.current;
                self.current = self.current + 1;
                self.add_token(TokenType::DOT);
                proof {
                    lemma_push_two_is_plus(
                        views_of_tokens(old(self).token_list@),
                        number_tok(s, i, e, self.line as nat),
                        tokv(
                            TokenType::DOT,
                            s.subrange(e as int, (e + 1) as int),
                            Option::None,
                            self.line as nat,
                        ),
                    );
                }
            }
        } else {
            let lit_v = sub_chars(&self.source, self.start, self.current);
            let lit = chars_to_string(&lit_v);
            self.add_token_with_literal(TokenType::NUMBER, Option::Some(LiteralType::Number(lit)));
            proof {
                lemma_push_is_plus_one(
                    views_of_tokens(old(self).token_list@),
                    number_tok(s, i, e, self.line as nat),
                );
            }
        }
    }

    /// Scans an identifier or keyword; `start` sits on its first character
    /// and the cursor just after it.
    fn identifier(&mut self)
        requires
            old(self).wf(),
            old(self).start < old(self).src().len(),
            old(self).current == old(self).start + 1,
        ensures
            final(self).wf(),
            final(self).src() == old(self).src(),
            match step_identifier(old(self).src(), old(self).start as nat, old(self).line as nat) {
                StepR::Tokens(ts, ni, nl) => {
                    &&& views_of_tokens(final(self).token_list@) == views_of_tokens(
                        old(self).token_list@,
                    ) + ts
                    &&& final(self).current == ni
                    &&& final(self).line == nl
                },
                StepR::Error(e) => false,
            },
    {
        let ghost s = self.source@;
        let ghost i = self.start as nat;
        let n = self.source.len();
        while self.current < n && char_is_alphanumeric(self.source[self.current])
            invariant
                self.wf(),
                self.src() == s,
                n == s.len(),
                self.start == old(self).start,
                self.line == old(self).line,
                self.token_list == old(self).token_list,
                i + 1 <= self.current <= n,
                alnum_end(s, i + 1) == alnum_end(s, self.current as nat),
            decreases n - self.current,
        {
            self.current = self.current + 1;
        }
        let text_v = sub_chars(&self.source, self.start, self.current);
        let text = chars_to_string(&text_v);
        let kind = keyword_kind(&text);
        self.add_token(kind);
        proof {
            lemma_push_is_plus_one(
                views_of_tokens(old(self).token_list@),
                tokv(
                    spec_keyword(s.subrange(i as int, self.current as int)),
                    s.subrange(i as int, self.current as int),
                    Option::None,
                    self.line as nat,
                ),
            );
        }
    }
}

impl Lexer {
    /// Scans one token (or none, for whitespace and comments) starting at the
    /// cursor, exactly as one step of the scan model describes.
    fn scan_token(&mut self) -> (r: Result<(), Errors>)
        requires
            old(self).wf(),
            old(self).current < old(self).src().len(),
        ensures
            final(self).wf(),
            final(self).src() == old(self).src(),
            match scan_step(old(self).src(), old(self).current as nat, old(self).line as nat) {
                StepR::Tokens(ts, ni, nl) => {
                    &&& r is Ok
                    &&& views_of_tokens(final(self).token_list@) == views_of_tokens(
                        old(self).token_list@,
                    ) + ts
                    &&& final(self).current == ni
                    &&& final(self).line == nl
                },
                StepR::Error(e) => r == Result::<(), Errors>::Err(e),
            },
    {
        let ghost s = self.source@;
        let ghost i = self.current as nat;
        let ghost pre = views_of_tokens(self.token_list@);
        self.start = self.current;
        let c = self.source[self.current];
        self.current = self.current + 1;
        if c == '(' {
            self.add_token(TokenType::LeftPara);
            proof {
                lemma_push_is_plus_one(pre, tokv(TokenType::LeftPara, s.subrange(i as int, (i + 1) as int), Option::None, self.line as nat));
            }
            Result::Ok(())
        } else if c == ')' {
            self.add_token(TokenType::RightPara);
            proof {
                lemma_push_is_plus_one(pre, tokv(TokenType::RightPara, s.subrange(i as int, (i + 1) as int), Option::None, self.line as nat));
            }
            Result::Ok(())
        } else if c == '{' {
            self.add_token(TokenType::LeftBrace);
            proof {
                lemma_push_is_plus_one(pre, tokv(TokenType::LeftBrace, s.subrange(i as int, (i + 1) as int), Option::None, self.line as nat));
            }
            Result::Ok(())
        } else if c == '}' {
            self.add_token(TokenType::RightBrace);
            proof {
                lemma_push_is_plus_one(pre, tokv(TokenType::RightBrace, s.subrange(i as int, (i + 1) as int), Option::None, self.line as nat));
            }
            Result::Ok(())
        } else if c == ',' {
            self.add_token(TokenType::COMMA);
            proof {
                lemma_push_is_plus_one(pre, tokv(TokenType::COMMA, s.subrange(i as int, (i + 1) as int), Option::None, self.line as nat));
            }
            Result::Ok(())
        } else if c == '.' {
            self.add_token(TokenType::DOT);
            proof {
                lemma_push_is_plus_one(pre, tokv(TokenType::DOT, s.subrange(i as int, (i + 1) as int), Option::None, self.line as nat));
            }
            Result::Ok(())
        } else if c == '-' {
            self.add_token(TokenType::MINUS);
            proof {
                lemma_push_is_plus_one(pre, tokv(TokenType::MINUS, s.subrange(i as int, (i + 1) as int), Option::None, self.line as nat));
            }
            Result::Ok(())
        } else if c == '+' {
            self.add_token(TokenType::PLUS);
            proof {
                lemma_push_is_plus_one(pre, tokv(TokenType::PLUS, s.subrange(i as int, (i + 1) as int), Option::None, self.line as nat));
            }
            Result::Ok(())
        } else if c == ';' {
            self.add_token(TokenType::SEMICOLON);
            proof {
                lemma_push_is_plus_one(pre, tokv(TokenType::SEMICOLON, s.subrange(i as int, (i + 1) as int), Option::None, self.line as nat));
            }
            Result::Ok(())
        } else if c == '*' {
            self.add_token(TokenType::STAR);
            proof {
                lemma_push_is_plus_one(pre, tokv(TokenType::STAR, s.subrange(i as int, (i + 1) as int), Option::None, self.line as nat));
            }
            Result::Ok(())
        } else if c == '!' {
            let two = self.match_next('=');
            let tt = if two { TokenType::BangEqual } else { TokenType::BANG };
            self.add_token(tt);
            proof {
                let upto = if two { (i + 2) as int } else { (i + 1) as int };
                lemma_push_is_plus_one(pre, tokv(tt, s.subrange(i as int, upto), Option::None, self.line as nat));
            }
            Result::Ok(())
        } else if c == '=' {
            let two = self.match_next('=');
            let tt = if two { TokenType::EqualEqual } else { TokenType::EQUAL };
            self.add_token(tt);
            proof {
                let upto = if two { (i + 2) as int } else { (i + 1) as int };
                lemma_push_is_plus_one(pre, tokv(tt, s.subrange(i as int, upto), Option::None, self.line as nat));
            }
            Result::Ok(())
        } else if c == '<' {
            let two = self.match_next('=');
            let tt = if two { TokenType::LessEqual } else { TokenType::LESS };
            self.add_token(tt);
            proof {
                let upto = if two { (i + 2) as int } else { (i + 1) as int };
                lemma_push_is_plus_one(pre, tokv(tt, s.subrange(i as int, upto), Option::None, self.line as nat));
            }
            Result::Ok(())
        } else if c == '>' {
            let two = self.match_next('=');
            let tt = if two { TokenType::GreaterEqual } else { TokenType::GREATER };
            self.add_token(tt);
            proof {
                let upto = if two { (i + 2) as int } else { (i + 1) as int };
                lemma_push_is_plus_one(pre, tokv(tt, s.subrange(i as int, upto), Option::None, self.line as nat));
            }
            Result::Ok(())
        } else if c == '/' {
            if self.match_next('/') {
                let n = self.source.len();
                while self.current < n && self.source[self.current] != '\n'
                    invariant
                        self.wf(),
                        self.src() == s,
                        n == s.len(),
                        self.line == old(self).line,
                        self.token_list == old(self).token_list,
                        i + 2 <= self.current <= n,
                        find_newline(s, i + 2) == find_newline(s, self.current as nat),
                    decreases n - self.current,
                {
                    self.current = self.current + 1;
                }
                proof {
                    assert(views_of_tokens(self.token_list@) =~= pre + Seq::<TokenV>::empty());
                }
                Result::Ok(())
            } else {
                self.add_token(TokenType::SLASH);
                proof {
                    lemma_push_is_plus_one(pre, tokv(TokenType::SLASH, s.subrange(i as int, (i + 1) as int), Option::None, self.line as nat));
                }
                Result::Ok(())
            }
        } else if c == '\n' {
            self.line = self.line + 1;
            proof {
                assert(views_of_tokens(self.token_list@) =~= pre + Seq::<TokenV>::empty());
            }
            Result::Ok(())
        } else if c == ' ' || c == '\r' || c == '\t' {
            proof {
                assert(views_of_tokens(self.token_list@) =~= pre + Seq::<TokenV>::empty());
            }
            Result::Ok(())
        } else if c == '"' {
            self.string()
        } else if exec_is_digit(c) {
            self.number();
            Result::Ok(())
        } else if char_is_alphabetic(c) || c == '_' {
            self.identifier();
            Result::Ok(())
        } else {
            Result::Err(Errors::UnexpectedChar)
        }
    }

    /// Scans the whole source: the token sequence the scan model gives,
    /// terminated by exactly one EOF token, or the first error. The scanned
    /// tokens are also kept in `token_list`. One scan is one committed pass
    /// over a fresh lexer, as `new` returns it.
    pub fn scan_tokens(&mut self) -> (r: Result<Vec<Token>, Errors>)
        requires
            old(self).fresh(),
        ensures
            final(self).src() == old(self).src(),
            match r {
                Result::Ok(v) => {
                    &&& spec_scan(old(self).src()) == Result::<Seq<TokenV>, Errors>::Ok(
                        views_of_tokens(v@),
                    )
                    &&& final(self).scanned() == views_of_tokens(v@)
                },
                Result::Err(e) => spec_scan(old(self).src()) == Result::<Seq<TokenV>, Errors>::Err(
                    e,
                ),
            },
    {
        let ghost s = self.source@;
        let n = self.source.len();
        proof {
            assert(views_of_tokens(Seq::<Token>::empty()) =~= Seq::<TokenV>::empty());
            if lex_from(s, 0, 1) is Done {
                assert(Seq::<TokenV>::empty() + lex_from(s, 0, 1)->Done_0 =~= lex_from(
                    s,
                    0,
                    1,
                )->Done_0);
            }
        }
        while self.current < n
            invariant
                self.wf(),
                self.src() == s,
                s == old(self).src(),
                n == s.len(),
                lex_prepend(
                    views_of_tokens(self.token_list@),
                    lex_from(s, self.current as nat, self.line as nat),
                ) == lex_from(s, 0, 1),
            decreases n - self.current,
        {
            let ghost pre = views_of_tokens(self.token_list@);
            let ghost cur = self.current as nat;
            let ghost ln = self.line as nat;
            proof {
                lemma_scan_step_progress(s, cur, ln);
            }
            let res = self.scan_token();
            match res {
                Result::Ok(()) => {
                    proof {
                        let step = scan_step(s, cur, ln);
                        assert(step is Tokens);
                        let ts = step->Tokens_0;
                        let ni = step->Tokens_1;
                        let nl = step->Tokens_2;
                        assert(lex_from(s, cur, ln) == lex_prepend(ts, lex_from(s, ni, nl)));
                        lemma_prepend_assoc(pre, ts, lex_from(s, ni, nl));
                    }
                },
                Result::Err(e) => {
                    proof {
                        assert(lex_from(s, cur, ln) == LexR::Fail(e));
                    }
                    return Result::Err(e);
                },
            }
        }
        proof {
            assert(views_of_tokens(self.token_list@) + Seq::<TokenV>::empty() =~= views_of_tokens(
                self.token_list@,
            ));
        }
        let eof = Token::new(TokenType::EOF, String::new(), Option::None, self.line);
        proof {
            lemma_views_push(self.token_list@, eof);
        }
        self.token_list.push(eof);
        let out = clone_tokens(&self.token_list);
        Result::Ok(out)
    }
}

} // verus!
