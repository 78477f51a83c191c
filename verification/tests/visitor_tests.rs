use psudo::error_handler::Errors;
use psudo::lexer::Lexer;
use psudo::parser::{Expression, Parser};
use psudo::visitor::{
    f32_bits_eq, f32_bits_le, f32_bits_lt, f32_neg_bits, DataTypes, EvalOutcome, ExpressionVistor,
    FloatOp, Interpret, PrettyPrint,
};

fn parse(src: &str) -> Expression {
    let mut lexer = Lexer::new(src.to_string());
    let tokens = lexer.scan_tokens().unwrap();
    let mut parser = Parser::new(tokens);
    parser.parse().unwrap()
}

/// Runs the evaluation protocol to completion, computing each requested
/// floating-point primitive with real f32 arithmetic.
fn eval_tree(e: &Expression) -> EvalOutcome {
    let interpreter = Interpret;
    let mut feeds: Vec<u32> = Vec::new();
    loop {
        match interpreter.evaluate(e, &feeds) {
            EvalOutcome::Pending(req) => {
                let bits = match req {
                    FloatOp::Parse(text) => text.parse::<f32>().unwrap().to_bits(),
                    FloatOp::Add(a, b) => (f32::from_bits(a) + f32::from_bits(b)).to_bits(),
                    FloatOp::Sub(a, b) => (f32::from_bits(a) - f32::from_bits(b)).to_bits(),
                    FloatOp::Mul(a, b) => (f32::from_bits(a) * f32::from_bits(b)).to_bits(),
                    FloatOp::Div(a, b) => (f32::from_bits(a) / f32::from_bits(b)).to_bits(),
                };
                feeds.push(bits);
            },
            done => return done,
        }
    }
}

fn eval_number(src: &str) -> f32 {
    match eval_tree(&parse(src)) {
        EvalOutcome::Value(DataTypes::Number(bits)) => f32::from_bits(bits),
        other => panic!("expected a number, got {:?}", other),
    }
}

fn eval_bool(src: &str) -> bool {
    match eval_tree(&parse(src)) {
        EvalOutcome::Value(DataTypes::Bool(b)) => b,
        other => panic!("expected a boolean, got {:?}", other),
    }
}

fn pretty(src: &str) -> String {
    PrettyPrint.vist_expr(&parse(src), &Vec::new())
}

#[test]
fn addition_respects_precedence() {
    assert_eq!(eval_number("1 + 2 * 3"), 7.0);
}

#[test]
fn grouping_overrides_precedence() {
    assert_eq!(eval_number("(1 + 2) * 3"), 9.0);
}

#[test]
fn unary_minus_distributes_over_group() {
    assert_eq!(eval_number("-(1 - 2)"), 1.0);
}

#[test]
fn comparison_uses_float_projection() {
    assert!(!eval_bool("4 >= 5"));
    let projected = DataTypes::Bool(false).as_number_bits();
    assert_eq!(projected, Some(0.0f32.to_bits()));
    assert_eq!(f32::from_bits(projected.unwrap()), 0.0);
}

#[test]
fn equal_precedence_evaluates_left_to_right() {
    assert_eq!(eval_number("10 - 4 - 3"), 3.0);
    assert_eq!(eval_number("16 / 4 / 2"), 2.0);
}

#[test]
fn division_by_zero_follows_ieee() {
    assert_eq!(eval_number("1 / 0"), f32::INFINITY);
    assert_eq!(eval_number("-1 / 0"), f32::NEG_INFINITY);
    assert!(eval_number("0 / 0").is_nan());
}

#[test]
fn number_truthiness_under_bang() {
    assert!(eval_bool("!0"));
    assert!(!eval_bool("!1"));
    assert!(eval_bool("!!5"));
    assert!(!eval_bool("!0.1"));
}

#[test]
fn booleans_project_to_numbers() {
    assert_eq!(eval_number("true + 1"), 2.0);
    assert_eq!(eval_number("false * 3"), 0.0);
    assert_eq!(eval_number("-true"), -1.0);
}

#[test]
fn negative_zero_equals_zero() {
    assert!(eval_bool("-0 == 0"));
    assert!(!eval_bool("-0 != 0"));
}

#[test]
fn comparisons_match_ieee() {
    assert!(eval_bool("1 < 2"));
    assert!(!eval_bool("2 < 1"));
    assert!(eval_bool("2 > 1"));
    assert!(eval_bool("2 >= 2"));
    assert!(eval_bool("2 <= 2"));
    assert!(eval_bool("1 != 2"));
    assert!(eval_bool("0 / 0 != 0 / 0"));
    assert!(!eval_bool("0 / 0 == 0 / 0"));
}

#[test]
fn string_literal_passes_through() {
    assert_eq!(
        eval_tree(&parse("\"hi\"")),
        EvalOutcome::Value(DataTypes::Str("hi".to_string()))
    );
}

#[test]
fn nil_and_booleans_construct_their_values() {
    assert_eq!(eval_tree(&parse("nil")), EvalOutcome::Value(DataTypes::Nil));
    assert_eq!(eval_tree(&parse("true")), EvalOutcome::Value(DataTypes::Bool(true)));
    assert_eq!(eval_tree(&parse("false")), EvalOutcome::Value(DataTypes::Bool(false)));
}

#[test]
fn operators_on_strings_and_nil_are_invalid() {
    assert_eq!(eval_tree(&parse("\"a\" + 1")), EvalOutcome::Invalid);
    assert_eq!(eval_tree(&parse("-nil")), EvalOutcome::Invalid);
    assert_eq!(eval_tree(&parse("!\"a\"")), EvalOutcome::Invalid);
    assert_eq!(eval_tree(&parse("nil < 1")), EvalOutcome::Invalid);
}

#[test]
fn number_literal_round_trips_through_its_text() {
    for text in ["1", "2.5", "0.1", "12", "007", "3.14159", "1000000"] {
        let value = text.parse::<f32>().unwrap();
        let reparsed = value.to_string().parse::<f32>().unwrap();
        assert_eq!(value.to_bits(), reparsed.to_bits());
        assert_eq!(eval_number(text), value);
    }
}

#[test]
fn pretty_print_is_prefix_form() {
    assert_eq!(pretty("1 + 2 * 3"), "(+ 1 (* 2 3))");
    assert_eq!(pretty("(1 + 2) * 3"), "(* (group (+ 1 2)) 3)");
}

#[test]
fn pretty_print_renders_every_node_shape() {
    assert_eq!(pretty("-(1 - 2)"), "(- (group (- 1 2)))");
    assert_eq!(pretty("!true"), "(! true)");
    assert_eq!(pretty("\"hi\""), "hi");
    assert_eq!(pretty("nil"), "nil");
    assert_eq!(pretty("1.50"), "1.50");
}

#[test]
fn interpreter_reports_pending_primitives_in_order() {
    let interpreter = Interpret;
    let e = parse("1 + 2");
    let none: Vec<u32> = Vec::new();
    match interpreter.evaluate(&e, &none) {
        EvalOutcome::Pending(FloatOp::Parse(text)) => assert_eq!(text, "1"),
        other => panic!("unexpected outcome {:?}", other),
    }
    let one = vec![1.0f32.to_bits()];
    match interpreter.evaluate(&e, &one) {
        EvalOutcome::Pending(FloatOp::Parse(text)) => assert_eq!(text, "2"),
        other => panic!("unexpected outcome {:?}", other),
    }
    let two = vec![1.0f32.to_bits(), 2.0f32.to_bits()];
    match interpreter.evaluate(&e, &two) {
        EvalOutcome::Pending(FloatOp::Add(a, b)) => {
            assert_eq!(f32::from_bits(a), 1.0);
            assert_eq!(f32::from_bits(b), 2.0);
        },
        other => panic!("unexpected outcome {:?}", other),
    }
}

#[test]
fn interpreter_visits_through_the_trait() {
    let e = parse("true");
    let outcome = Interpret.vist_expr(&e, &Vec::new());
    assert_eq!(outcome, EvalOutcome::Value(DataTypes::Bool(true)));
}

#[test]
fn bit_comparisons_match_real_f32_comparisons() {
    let samples = [
        0.0f32,
        -0.0,
        1.0,
        -1.0,
        0.5,
        -2.5,
        f32::INFINITY,
        f32::NEG_INFINITY,
        f32::NAN,
        f32::MIN_POSITIVE,
        3.4e38,
    ];
    for &a in &samples {
        for &b in &samples {
            let (ba, bb) = (a.to_bits(), b.to_bits());
            assert_eq!(f32_bits_eq(ba, bb), a == b, "eq on {} {}", a, b);
            assert_eq!(f32_bits_lt(ba, bb), a < b, "lt on {} {}", a, b);
            assert_eq!(f32_bits_le(ba, bb), a <= b, "le on {} {}", a, b);
        }
        assert_eq!(f32::from_bits(f32_neg_bits(a.to_bits())).to_bits(), (-a).to_bits());
    }
}

#[test]
fn projection_helpers_follow_the_conversion_rules() {
    assert_eq!(DataTypes::Number(0.0f32.to_bits()).as_bool(), Some(false));
    assert_eq!(DataTypes::Number((-0.0f32).to_bits()).as_bool(), Some(false));
    assert_eq!(DataTypes::Number(2.5f32.to_bits()).as_bool(), Some(true));
    assert_eq!(DataTypes::Number(f32::NAN.to_bits()).as_bool(), Some(true));
    assert_eq!(DataTypes::Bool(true).as_number_bits(), Some(1.0f32.to_bits()));
    assert_eq!(DataTypes::Bool(false).as_number_bits(), Some(0.0f32.to_bits()));
    assert_eq!(DataTypes::Str("x".to_string()).as_number_bits(), None);
    assert_eq!(DataTypes::Nil.as_bool(), None);
}

#[test]
fn errors_carry_their_messages() {
    assert_eq!(
        Errors::ParseFloatError.message(),
        "NUMER Token Parse Error"
    );
}

#[test]
fn printability_is_decidable_per_tree() {
    let pp = PrettyPrint;
    assert!(pp.is_printable(&parse("1 + 2 * 3")));
    assert!(pp.is_printable(&parse("-(1 - 2) <= 3.5")));
    assert!(pp.is_printable(&parse("!true == nil")));
    // A string literal holding a space or a parenthesis prints a form that
    // could also have come from a composite tree.
    assert!(!pp.is_printable(&parse("\"a b\"")));
    assert!(!pp.is_printable(&parse("\"(group 1)\"")));
    assert!(!pp.is_printable(&parse("\"\"")));
}

#[test]
fn render_source_runs_the_whole_pass() {
    assert_eq!(
        psudo::pipeline::render_source("1 + 2 * 3".to_string()).unwrap(),
        "(+ 1 (* 2 3))"
    );
    assert_eq!(
        psudo::pipeline::render_source("(1 + 2".to_string()),
        Err(Errors::UntermitedGroup)
    );
    assert_eq!(
        psudo::pipeline::render_source("\"abc".to_string()),
        Err(Errors::UntermitedString)
    );
    assert_eq!(psudo::pipeline::render_source("".to_string()), Err(Errors::NonPrimaryToken));
    assert_eq!(psudo::pipeline::render_source("@".to_string()), Err(Errors::UnexpectedChar));
}
