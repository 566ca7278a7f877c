use sos::interpreter::{self, State, Value};
use sos::parser;

const FUEL: u64 = 10_000;

fn interpret_expr(code: &str) -> Value {
    let chars: Vec<char> = code.chars().collect();
    let res = parser::expr(&mut parser::State::default(), &chars, 0)
        .expect("Parsing failed")
        .0;
    interpreter::interpret_expr(&mut State::new(), &res, FUEL).expect("Evaluation failed")
}

#[test]
fn interpret_numbers() {
    assert_eq!(Value::Vector(vec![1]), interpret_expr("."));
    assert_eq!(Value::Vector(vec![2]), interpret_expr(":"));
    assert_eq!(Value::Vector(vec![3]), interpret_expr(".:"));
    assert_eq!(Value::Vector(vec![4]), interpret_expr("::"));
    assert_eq!(Value::Vector(vec![5]), interpret_expr(".::"));
    assert_eq!(Value::Vector(vec![6]), interpret_expr(":::"));
    assert_eq!(Value::Vector(vec![7]), interpret_expr(".:::"));
}

#[test]
fn interpret_vectors() {
    assert_eq!(Value::Vector(vec![1, 2]), interpret_expr(". :"));
    assert_eq!(Value::Vector(vec![1, 2, 3]), interpret_expr(". : .:"));
    assert_eq!(Value::Vector(vec![1, 2, 3, 4]), interpret_expr(". : .: ::"));
}

#[test]
fn interpret_equality_of_integers() {
    assert_eq!(Value::Boolean(true), interpret_expr(". = ."));
    assert_eq!(Value::Boolean(false), interpret_expr(". = :"));
    assert_eq!(Value::Boolean(false), interpret_expr(". = .:"));
    assert_eq!(Value::Boolean(false), interpret_expr(". = ::"));

    assert_eq!(Value::Boolean(false), interpret_expr(": = ."));
    assert_eq!(Value::Boolean(true), interpret_expr(": = :"));
    assert_eq!(Value::Boolean(false), interpret_expr(": = .:"));
    assert_eq!(Value::Boolean(false), interpret_expr(": = ::"));

    assert_eq!(Value::Boolean(false), interpret_expr(".: = ."));
    assert_eq!(Value::Boolean(false), interpret_expr(".: = :"));
    assert_eq!(Value::Boolean(true), interpret_expr(".: = .:"));
    assert_eq!(Value::Boolean(false), interpret_expr(".: = ::"));

    assert_eq!(Value::Boolean(false), interpret_expr(":: = ."));
    assert_eq!(Value::Boolean(false), interpret_expr(":: = :"));
    assert_eq!(Value::Boolean(false), interpret_expr(":: = .:"));
    assert_eq!(Value::Boolean(true), interpret_expr(":: = ::"));
}

#[test]
fn interpret_equality_of_vectors() {
    assert_eq!(Value::Boolean(true), interpret_expr(". : = . :"));
    assert_eq!(Value::Boolean(false), interpret_expr(". : = : :"));
    assert_eq!(Value::Boolean(false), interpret_expr(". : = ."));
}

#[test]
fn interpret_equality_of_functions() {
    assert_eq!(
        Value::Boolean(true),
        interpret_expr(r#"{ö ¤ \. + \:) = {ä ¤ \. + \:)"#)
    );
    assert_eq!(
        Value::Boolean(false),
        interpret_expr(r#"{ö ¤ \. + \:) = {ä ¤ \: + \:)"#)
    );
    assert_eq!(
        Value::Boolean(true),
        interpret_expr(r#"{ö ¤ å ¤ \.) = {ä ¤ å ¤ \.)"#)
    );
}

#[test]
fn interpret_addition_of_numbers() {
    assert_eq!(Value::Vector(vec![2]), interpret_expr(r#". + ."#));
    assert_eq!(Value::Vector(vec![3]), interpret_expr(r#". + :"#));
    assert_eq!(Value::Vector(vec![3]), interpret_expr(r#": + ."#));
    assert_eq!(Value::Vector(vec![4]), interpret_expr(r#": + :"#));
}
