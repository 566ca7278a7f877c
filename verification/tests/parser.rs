use sos::parser::{parse, Expr as E, Ident, Op, Param, ParseError, State, VectorComponent};

fn b<T>(t: T) -> Box<T> {
    Box::new(t)
}

fn p(code: &str) -> Result<(Vec<E>, usize), ParseError> {
    parse(&mut State::default(), code)
}

fn ok(v: Vec<E>, code: &str) -> Result<(Vec<E>, usize), ParseError> {
    Ok((v, code.chars().count()))
}

fn number(n: u64) -> E {
    E::Vector(vec![VectorComponent::Number(n)])
}

fn param(n: u64) -> E {
    E::Param(Param(n))
}

fn scope(e: E) -> E {
    E::Scope(b(e))
}

#[test]
fn parse_numbers() {
    assert_eq!(ok(vec![number(1)], "."), p("."));
    assert_eq!(ok(vec![number(2)], ":"), p(":"));
    assert_eq!(ok(vec![number(3)], ".:"), p(".:"));
    assert_eq!(ok(vec![number(4)], "::"), p("::"));
    assert_eq!(ok(vec![number(5)], ".::"), p(".::"));
    assert_eq!(ok(vec![number(6)], ":::"), p(":::"));
    assert_eq!(ok(vec![number(7)], ".:::"), p(".:::"));
}

#[test]
fn parse_vectors() {
    assert_eq!(
        ok(
            vec![E::Vector(vec![
                VectorComponent::Number(1),
                VectorComponent::Number(2),
            ])],
            ". :"
        ),
        p(". :")
    );
    assert_eq!(
        ok(
            vec![E::Vector(vec![
                VectorComponent::Number(1),
                VectorComponent::Number(2),
                VectorComponent::Number(3),
            ])],
            ". : .:"
        ),
        p(". : .:")
    );
    assert_eq!(
        ok(
            vec![E::Vector(vec![
                VectorComponent::Number(1),
                VectorComponent::Number(2),
                VectorComponent::Number(3),
                VectorComponent::Number(4),
            ])],
            ". : .: ::"
        ),
        p(". : .: ::")
    );
}

#[test]
fn parse_conditional() {
    assert_eq!(
        ok(
            vec![E::Conditional {
                condition: b(number(1)),
                success: b(scope(number(1))),
                failure: b(None),
            }],
            "given that.{."
        ),
        p("given that.{.")
    );
}

#[test]
fn parse_conditional_whitespace() {
    assert_eq!(
        ok(
            vec![E::Conditional {
                condition: b(number(1)),
                success: b(scope(number(1))),
                failure: b(None),
            }],
            "given that . { . "
        ),
        p("given that . { . ")
    );
}

#[test]
fn parse_conditional_with_else() {
    assert_eq!(
        ok(
            vec![E::Conditional {
                condition: b(number(1)),
                success: b(scope(number(1))),
                failure: b(Some(number(1))),
            }],
            "given that.{.)otherwise."
        ),
        p("given that.{.)otherwise.")
    );
}

#[test]
fn parse_conditional_with_else_whitespace() {
    assert_eq!(
        ok(
            vec![E::Conditional {
                condition: b(number(1)),
                success: b(scope(number(1))),
                failure: b(Some(number(1))),
            }],
            "given that . { . ) otherwise . "
        ),
        p("given that . { . ) otherwise . ")
    );
}

#[test]
fn parse_function_definition() {
    assert_eq!(
        ok(
            vec![E::Definition(Ident("öäå".into()), b(number(1)))],
            "öäå¤."
        ),
        p("öäå¤.")
    );
}

#[test]
fn parse_function_definition_whitespace() {
    assert_eq!(
        ok(
            vec![E::Definition(Ident("öäå".into()), b(number(1)))],
            "öäå ¤ ."
        ),
        p("öäå ¤ .")
    );
}

#[test]
fn parse_function_definition_with_param() {
    assert_eq!(
        ok(vec![E::Definition(Ident("ö".into()), b(param(1)))], r"ö ¤ \."),
        p(r"ö ¤ \.")
    );
}

#[test]
fn parse_function_definition_with_all_params_as_vector() {
    assert_eq!(
        ok(vec![E::Definition(Ident("ö".into()), b(param(0)))], r"ö ¤ \\"),
        p(r"ö ¤ \\")
    );
}

#[test]
fn parse_multiple_function_definitions() {
    let code = r"ö ¤ \.
        ä ¤ \.";
    assert_eq!(
        ok(
            vec![
                E::Definition(Ident("ö".into()), b(param(1))),
                E::Definition(Ident("ä".into()), b(param(1))),
            ],
            code
        ),
        p(code)
    );
}

#[test]
fn parse_preceding_whitespace() {
    assert_eq!(ok(vec![number(1)], r"     ."), p(r"     ."));
}

#[test]
fn parse_scope() {
    assert_eq!(ok(vec![scope(number(1))], r"{.)"), p(r"{.)"));
}

#[test]
fn parse_scope_whitespace() {
    assert_eq!(ok(vec![scope(number(1))], r"{ . ) "), p(r"{ . ) "));
}

#[test]
fn parse_scope_ending_to_eof() {
    assert_eq!(ok(vec![scope(number(1))], r"{."), p(r"{."));
}

#[test]
fn parse_scope_ending_to_linebreak() {
    let code = "{.\n        ";
    assert_eq!(ok(vec![scope(number(1))], code), p(code));
}

#[test]
fn parse_addition() {
    assert_eq!(
        ok(vec![E::Op(b(number(1)), Op::Add, b(number(1)))], ".+."),
        p(".+.")
    )
}

#[test]
fn parse_addition_whitespace() {
    assert_eq!(
        ok(vec![E::Op(b(number(1)), Op::Add, b(number(1)))], ". + ."),
        p(". + .")
    )
}

#[test]
fn parse_equality() {
    assert_eq!(
        ok(vec![E::Op(b(number(1)), Op::Equ, b(number(1)))], ".=."),
        p(".=.")
    )
}

#[test]
fn parse_equality_whitespace() {
    assert_eq!(
        ok(vec![E::Op(b(number(1)), Op::Equ, b(number(1)))], ". = ."),
        p(". = .")
    )
}

#[test]
fn parse_realer_function() {
    assert_eq!(
        ok(
            vec![E::Definition(
                Ident("ö".into()),
                b(E::Op(
                    b(scope(E::Op(b(param(1)), Op::Add, b(param(2))))),
                    Op::Mul,
                    b(E::Op(b(param(1)), Op::Add, b(number(7))))
                ))
            )],
            r"ö ¤ {\. + \:) * \. + .:::"
        ),
        p(r"ö ¤ {\. + \:) * \. + .:::")
    )
}

#[test]
fn parse_writing_io() {
    assert_eq!(ok(vec![E::WriteIO(b(number(1)))], "@ << ."), p("@ << ."))
}

#[test]
fn parse_simple_text() {
    assert_eq!(ok(vec![E::Text("simple".into())], "/simple"), p("/simple"))
}

#[test]
fn parse_space_text() {
    assert_eq!(ok(vec![E::Text("  ".into())], "/ / "), p("/ / "))
}

#[test]
fn parse_phrase_text() {
    assert_eq!(
        ok(vec![E::Text("Hello, World!".into())], "/Hello,/ World!"),
        p("/Hello,/ World!")
    )
}

#[test]
fn parse_slash_text() {
    assert_eq!(ok(vec![E::Text("/".into())], "//"), p("//"))
}

#[test]
fn parse_slash_space_text() {
    assert_eq!(ok(vec![E::Text("/ ".into())], "// "), p("// "))
}

#[test]
fn parse_space_slash_text() {
    assert_eq!(ok(vec![E::Text(" /".into())], "/ //"), p("/ //"))
}

#[test]
fn parse_slashmiddle_text() {
    assert_eq!(ok(vec![E::Text("eyey".into())], "/ey/ey"), p("/ey/ey"))
}

#[test]
fn parse_slashmiddle_space_text() {
    assert_eq!(ok(vec![E::Text("ey/ ey".into())], "/ey// ey"), p("/ey// ey"))
}

#[test]
fn parse_text_ending_linebreak() {
    assert_eq!(ok(vec![E::Text("aaa".into())], "/aaa\n"), p("/aaa\n"))
}

#[test]
fn parse_printing_text_to_io() {
    assert_eq!(
        ok(vec![E::WriteIO(b(E::Text("true".into())))], "@ << /true "),
        p("@ << /true ")
    )
}

#[test]
fn parse_call_function_in_scope() {
    assert_eq!(
        ok(
            vec![scope(E::Call(
                Ident("ö".into()),
                vec![scope(number(1)), number(3)]
            ))],
            "{ö { . ) .:)"
        ),
        p("{ö { . ) .:)")
    )
}

#[test]
fn parse_compare_equality_of_number_and_function_call() {
    assert_eq!(
        ok(
            vec![E::Op(
                b(number(24)),
                Op::Equ,
                b(scope(E::Call(
                    Ident("ö".into()),
                    vec![number(1), scope(number(3))]
                )))
            )],
            ":::::::::::: = {ö . { .:"
        ),
        p(":::::::::::: = {ö . { .:")
    )
}

#[test]
fn parse_condition_that_prints() {
    assert_eq!(
        ok(
            vec![E::Conditional {
                condition: b(E::Op(b(number(2)), Op::Equ, b(number(1)),)),
                success: b(E::WriteIO(b(E::Text("true".into())))),
                failure: b(None)
            }],
            r"given that : = . @ << /true"
        ),
        p(r"given that : = . @ << /true")
    )
}

#[test]
fn parse_realer_expression() {
    assert_eq!(
        ok(
            vec![E::Conditional {
                condition: b(E::Op(
                    b(number(24)),
                    Op::Equ,
                    b(scope(E::Call(
                        Ident("ö".into()),
                        vec![E::Vector(vec![
                            VectorComponent::Number(1),
                            VectorComponent::Number(3),
                        ])]
                    )))
                )),
                success: b(E::WriteIO(b(E::Text("true".into())))),
                failure: b(Some(E::WriteIO(b(E::Text("false".into())))))
            }],
            r"given that :::::::::::: = {ö . .:) @ << /true otherwise @ << /false"
        ),
        p(r"given that :::::::::::: = {ö . .:) @ << /true otherwise @ << /false")
    )
}

#[test]
fn parse_example() {
    let code = r"
ö ¤ {\. + \:) * \. + .:::

given that :::::::::::: = {ö . .:) @ << /true otherwise @ << /false
        ";
    assert_eq!(
        ok(
            vec![
                E::Definition(
                    Ident("ö".into()),
                    b(E::Op(
                        b(scope(E::Op(b(param(1)), Op::Add, b(param(2))))),
                        Op::Mul,
                        b(E::Op(b(param(1)), Op::Add, b(number(7))))
                    ))
                ),
                E::Conditional {
                    condition: b(E::Op(
                        b(number(24)),
                        Op::Equ,
                        b(scope(E::Call(
                            Ident("ö".into()),
                            vec![E::Vector(vec![
                                VectorComponent::Number(1),
                                VectorComponent::Number(3),
                            ])]
                        )))
                    )),
                    success: b(E::WriteIO(b(E::Text("true".into())))),
                    failure: b(Some(E::WriteIO(b(E::Text("false".into())))))
                }
            ],
            code
        ),
        p(code)
    )
}
