use sos::interpreter::{
    interpret_addition, interpret_expr, is_truthy, value_eq, vectorize, EvalError, State, Value,
};
use sos::parser::{self, parse, text, Expr, ParseError, VectorComponent};

const FUEL: u64 = 10_000;

fn parse_one(code: &str) -> Expr {
    let chars: Vec<char> = code.chars().collect();
    parser::expr(&mut parser::State::default(), &chars, 0)
        .expect("Parsing failed")
        .0
}

fn eval(code: &str) -> Result<Value, EvalError> {
    interpret_expr(&mut State::new(), &parse_one(code), FUEL)
}

fn eval_program(code: &str) -> Vec<Result<Value, EvalError>> {
    let (exprs, _) = parse(&mut parser::State::default(), code).expect("Parsing failed");
    let mut state = State::new();
    exprs
        .iter()
        .map(|e| interpret_expr(&mut state, e, FUEL))
        .collect()
}

fn encoding_of(n: u64) -> String {
    let mut s = String::new();
    if n % 2 == 1 {
        s.push('.');
        for _ in 0..(n - 1) / 2 {
            s.push(':');
        }
    } else {
        s.push(':');
        for _ in 0..(n - 2) / 2 {
            s.push(':');
        }
    }
    s
}

#[test]
fn encoding_parses_for_small_numbers() {
    for n in 1..=16u64 {
        let code = encoding_of(n);
        let expected = vec![Expr::Vector(vec![VectorComponent::Number(n)])];
        assert_eq!(
            Ok((expected, code.chars().count())),
            parse(&mut parser::State::default(), &code)
        );
    }
}

#[test]
fn phrase_rotation_rejects_reuse() {
    assert_eq!(
        Err(ParseError::PhraseExhausted),
        parse(&mut parser::State::default(), "given that given that . . .")
    );
}

#[test]
fn phrase_rotation_allows_distinct_phrases() {
    let r = parse(
        &mut parser::State::default(),
        "given that . {.\nassuming that . {.",
    );
    let (exprs, _) = r.expect("parse failed");
    assert_eq!(2, exprs.len());
    assert!(matches!(exprs[0], Expr::Conditional { .. }));
    assert!(matches!(exprs[1], Expr::Conditional { .. }));
}

#[test]
fn scope_terminators_agree() {
    let closed = parse(&mut parser::State::default(), "{.)").unwrap().0;
    let by_newline = parse(&mut parser::State::default(), "{.\n").unwrap().0;
    let by_eof = parse(&mut parser::State::default(), "{.").unwrap().0;
    assert_eq!(closed, by_newline);
    assert_eq!(closed, by_eof);
    assert_eq!(
        vec![Expr::Scope(Box::new(Expr::Vector(vec![
            VectorComponent::Number(1)
        ])))],
        closed
    );
}

#[test]
fn empty_text_is_rejected() {
    let chars: Vec<char> = "/".chars().collect();
    assert_eq!(Err(ParseError::EmptyText), text(&chars, 0));
}

#[test]
fn unrecognized_input_parses_to_nothing() {
    let chars: Vec<char> = "x".chars().collect();
    assert_eq!(Err(ParseError::Unrecognized), sos::parser::number(&chars, 0));
    assert_eq!(Err(ParseError::Unrecognized), text(&chars, 0));
    assert!(sos::parser::eof(&chars, 1));
    assert!(!sos::parser::eof(&chars, 0));
}

#[test]
fn currency_sign_is_not_an_identifier() {
    assert_eq!(Ok((vec![], 0)), parse(&mut parser::State::default(), "¤"));
}

#[test]
fn ascii_is_not_an_identifier() {
    assert_eq!(
        Ok((vec![], 0)),
        parse(&mut parser::State::default(), "abc")
    );
}

#[test]
fn truthiness_of_text() {
    let mut st = State::new();
    assert_eq!(Ok(true), is_truthy(&mut st, Value::Text("Ok".into()), FUEL));
    assert_eq!(Ok(true), is_truthy(&mut st, Value::Text("OOk".into()), FUEL));
    assert_eq!(Ok(true), is_truthy(&mut st, Value::Text("".into()), FUEL));
    assert_eq!(Ok(false), is_truthy(&mut st, Value::Text("no".into()), FUEL));
}

#[test]
fn truthiness_of_other_values() {
    let mut st = State::new();
    assert_eq!(Ok(true), is_truthy(&mut st, Value::Boolean(true), FUEL));
    assert_eq!(Ok(false), is_truthy(&mut st, Value::Boolean(false), FUEL));
    assert_eq!(Ok(false), is_truthy(&mut st, Value::Empty, FUEL));
    assert_eq!(Ok(false), is_truthy(&mut st, Value::Vector(vec![1]), FUEL));
    assert_eq!(Ok(false), is_truthy(&mut st, Value::Vector(vec![]), FUEL));
}

#[test]
fn boolean_addition_is_xor() {
    let mut st = State::new();
    for a in [false, true] {
        for b in [false, true] {
            assert_eq!(
                Ok(Value::Boolean(a ^ b)),
                interpret_addition(&mut st, Value::Boolean(a), Value::Boolean(b), FUEL)
            );
        }
    }
}

#[test]
fn vector_plus_empty_is_identity() {
    let mut st = State::new();
    assert_eq!(
        Ok(Value::Vector(vec![1, 2, 3])),
        interpret_addition(&mut st, Value::Vector(vec![1, 2, 3]), Value::Empty, FUEL)
    );
}

#[test]
fn empty_plus_value_is_identity() {
    let mut st = State::new();
    assert_eq!(
        Ok(Value::Text("x".into())),
        interpret_addition(&mut st, Value::Empty, Value::Text("x".into()), FUEL)
    );
    assert_eq!(
        Ok(Value::Boolean(true)),
        interpret_addition(&mut st, Value::Empty, Value::Boolean(true), FUEL)
    );
    assert_eq!(
        Ok(Value::Vector(vec![9])),
        interpret_addition(&mut st, Value::Empty, Value::Vector(vec![9]), FUEL)
    );
}

#[test]
fn true_plus_text_reverses_graphemes() {
    let mut st = State::new();
    assert_eq!(
        Ok(Value::Text("anan\u{0303}am".into())),
        interpret_addition(
            &mut st,
            Value::Boolean(true),
            Value::Text("man\u{0303}ana".into()),
            FUEL
        )
    );
    assert_eq!(
        Ok(Value::Text("abc".into())),
        interpret_addition(&mut st, Value::Boolean(false), Value::Text("abc".into()), FUEL)
    );
    assert_eq!(
        Ok(Value::Text("abc".into())),
        interpret_addition(&mut st, Value::Text("abc".into()), Value::Boolean(true), FUEL)
    );
    assert_eq!(
        Ok(Value::Text("cba".into())),
        interpret_addition(&mut st, Value::Text("abc".into()), Value::Boolean(false), FUEL)
    );
}

#[test]
fn text_addition_inserts_one_space() {
    let mut st = State::new();
    assert_eq!(
        Ok(Value::Text("a b".into())),
        interpret_addition(&mut st, Value::Text("a".into()), Value::Text("b".into()), FUEL)
    );
}

#[test]
fn text_vector_addition_renders_digits() {
    let mut st = State::new();
    assert_eq!(
        Ok(Value::Text("v-123".into())),
        interpret_addition(
            &mut st,
            Value::Text("v".into()),
            Value::Vector(vec![-1, 23]),
            FUEL
        )
    );
    assert_eq!(
        Ok(Value::Text("10x".into())),
        interpret_addition(
            &mut st,
            Value::Vector(vec![10]),
            Value::Text("x".into()),
            FUEL
        )
    );
}

#[test]
fn vector_addition_is_elementwise_and_trims_zeros() {
    let mut st = State::new();
    assert_eq!(
        Ok(Value::Vector(vec![2, 4, 3])),
        interpret_addition(
            &mut st,
            Value::Vector(vec![1, 2, 3]),
            Value::Vector(vec![1, 2]),
            FUEL
        )
    );
    assert_eq!(
        Ok(Value::Vector(vec![])),
        interpret_addition(
            &mut st,
            Value::Vector(vec![1, -2]),
            Value::Vector(vec![-1, 2]),
            FUEL
        )
    );
    assert_eq!(
        Ok(Value::Vector(vec![2])),
        interpret_addition(
            &mut st,
            Value::Vector(vec![1, 0]),
            Value::Vector(vec![1, 0]),
            FUEL
        )
    );
}

#[test]
fn true_plus_vector_permutes() {
    let mut st = State::new();
    let r = interpret_addition(
        &mut st,
        Value::Boolean(true),
        Value::Vector(vec![5, 1, 4, 2, 3]),
        FUEL,
    );
    match r {
        Ok(Value::Vector(mut v)) => {
            v.sort();
            assert_eq!(vec![1, 2, 3, 4, 5], v);
        }
        other => panic!("unexpected outcome: {:?}", other),
    }
}

#[test]
fn seeded_states_shuffle_alike() {
    let mut a = State::new_seeded(7);
    let mut b = State::new_seeded(7);
    let ra = interpret_addition(&mut a, Value::Boolean(true), Value::Vector(vec![1, 2, 3]), FUEL);
    let rb = interpret_addition(&mut b, Value::Boolean(true), Value::Vector(vec![1, 2, 3]), FUEL);
    assert_eq!(ra, rb);
}

#[test]
fn undefined_function_fails() {
    assert_eq!(Err(EvalError::UndefinedFunction), eval("ö"));
}

#[test]
fn unbound_param_fails() {
    assert_eq!(Err(EvalError::UnboundParam), eval(r"\."));
}

#[test]
fn unsupported_operands_fail() {
    let mut st = State::new();
    assert_eq!(
        Err(EvalError::UnsupportedOperands),
        interpret_addition(&mut st, Value::Vector(vec![1]), Value::Boolean(true), FUEL)
    );
}

#[test]
fn out_of_fuel_fails() {
    let mut st = State::new();
    assert_eq!(
        Err(EvalError::OutOfFuel),
        is_truthy(&mut st, Value::Function(parse_one(".")), 0)
    );
}

#[test]
fn definition_yields_function_value() {
    assert_eq!(
        Ok(Value::Function(Expr::Vector(vec![VectorComponent::Number(
            1
        )]))),
        eval("ö ¤ .")
    );
}

#[test]
fn function_call_applies_parameters() {
    let results = eval_program("ö ¤ \\. + \\:\n{ö {.) {:)");
    assert_eq!(2, results.len());
    assert_eq!(Ok(Value::Vector(vec![3])), results[1]);
}

#[test]
fn param_zero_collects_all_parameters() {
    let results = eval_program("ö ¤ \\\\\n{ö {.) {:)");
    assert_eq!(Ok(Value::Vector(vec![1, 2])), results[1]);
}

#[test]
fn callee_reads_caller_parameters() {
    let results = eval_program("ö ¤ \\:\nä ¤ ö {.:)\n{ä {.) {:)");
    assert_eq!(3, results.len());
    assert_eq!(Ok(Value::Vector(vec![1])), results[2]);
}

#[test]
fn vectorize_coercions() {
    let mut st = State::new();
    assert_eq!(Ok(vec![42]), vectorize(&mut st, Value::Boolean(true), FUEL));
    assert_eq!(Ok(vec![7]), vectorize(&mut st, Value::Boolean(false), FUEL));
    assert_eq!(Ok(vec![0]), vectorize(&mut st, Value::Empty, FUEL));
    assert_eq!(Ok(vec![3]), vectorize(&mut st, Value::Text("abc".into()), FUEL));
    assert_eq!(
        Ok(vec![8, 9]),
        vectorize(&mut st, Value::Vector(vec![8, 9]), FUEL)
    );
}

#[test]
fn equality_is_variant_exact() {
    let samples = vec![
        Value::Text("Ok".into()),
        Value::Boolean(true),
        Value::Vector(vec![1]),
        Value::Function(parse_one(".")),
        Value::Empty,
    ];
    for (i, a) in samples.iter().enumerate() {
        for (j, b) in samples.iter().enumerate() {
            assert_eq!(i == j, value_eq(a, b));
        }
    }
}

#[test]
fn mul_and_sub_yield_the_left_operand() {
    assert_eq!(Ok(Value::Vector(vec![1])), eval(". * :"));
    assert_eq!(Ok(Value::Vector(vec![1])), eval(". - :"));
}

#[test]
fn write_io_yields_empty() {
    assert_eq!(Ok(Value::Empty), eval("@ << /hi"));
}

#[test]
fn conditional_picks_branch_by_truthiness() {
    assert_eq!(
        Ok(Value::Text("yes".into())),
        eval("given that . = . /yes otherwise /no")
    );
    assert_eq!(
        Ok(Value::Text("no".into())),
        eval("given that . = : /yes otherwise /no")
    );
    assert_eq!(Ok(Value::Empty), eval("given that . = : /yes"));
}
