use tarzan::ast::{BlockStatement, Expression, Program, Statement};
use tarzan::lexer;
use tarzan::parser;
use tarzan::token::Token;

fn parse_with_errors(source: &str) -> (Program, Vec<String>) {
    let lexer = lexer::new(source.to_string());
    let mut parser = parser::new(lexer);
    let program = parser.parse().unwrap();
    (program, parser.errors)
}

fn parse_clean(source: &str) -> Program {
    let (program, errors) = parse_with_errors(source);
    assert_eq!(errors, Vec::<String>::new(), "{}", source);
    program
}

fn text_of(statement: &Statement) -> String {
    statement.to_string()
}

fn texts_of(program: &Program) -> Vec<String> {
    program.statements.iter().map(text_of).collect()
}

fn block_texts(block: &BlockStatement) -> Vec<String> {
    block.statements.iter().map(text_of).collect()
}

fn five() -> &'static str {
    "IntegerLiteral { token: Int { literal: \"5\" }, value: 5 }"
}

fn number(value: i64) -> String {
    format!("IntegerLiteral {{ token: Int {{ literal: \"{}\" }}, value: {} }}", value, value)
}

fn name(text: &str) -> String {
    format!("Identifier(Identifier {{ literal: \"{}\" }})", text)
}

fn infix(operator: &str, left: &str, right: &str) -> String {
    format!("InfixExpression {{ operator: \"{}\", left: {}, right: {} }}", operator, left, right)
}

fn prefix(operator: &str, right: &str) -> String {
    format!("PrefixExpression {{ operator: \"{}\", right: {} }}", operator, right)
}

#[test]
fn multiplication_binds_tighter_than_addition() {
    let program = parse_clean("1 + 2 * 3");
    assert_eq!(program.statements.len(), 1);
    match &program.statements[0] {
        Statement::Expression(Expression::InfixExpression { operator, left, right }) => {
            assert_eq!(operator, "+");
            assert!(matches!(**left, Expression::IntegerLiteral { value: 1, .. }));
            match &**right {
                Expression::InfixExpression { operator, left, right } => {
                    assert_eq!(operator, "*");
                    assert!(matches!(**left, Expression::IntegerLiteral { value: 2, .. }));
                    assert!(matches!(**right, Expression::IntegerLiteral { value: 3, .. }));
                }
                other => panic!("{:?}", other),
            }
        }
        other => panic!("{:?}", other),
    }
}

#[test]
fn a_product_on_the_left_is_the_left_operand_of_a_sum() {
    let program = parse_clean("1 * 2 + 3");
    assert_eq!(
        texts_of(&program),
        vec![infix("+", &infix("*", &number(1), &number(2)), &number(3))]
    );
}

#[test]
fn operators_of_one_level_associate_to_the_left() {
    assert_eq!(
        texts_of(&parse_clean("1 + 2 + 3")),
        vec![infix("+", &infix("+", &number(1), &number(2)), &number(3))]
    );
    assert_eq!(
        texts_of(&parse_clean("8 / 4 * 2")),
        vec![infix("*", &infix("/", &number(8), &number(4)), &number(2))]
    );
    assert_eq!(
        texts_of(&parse_clean("1 - 2 + 3")),
        vec![infix("+", &infix("-", &number(1), &number(2)), &number(3))]
    );
    assert_eq!(
        texts_of(&parse_clean("1 == 2 != 3")),
        vec![infix("!=", &infix("==", &number(1), &number(2)), &number(3))]
    );
}

#[test]
fn comparison_binds_looser_than_sum_and_tighter_than_equality() {
    assert_eq!(
        texts_of(&parse_clean("1 + 2 < 3 + 4 == 5 > 6")),
        vec![infix(
            "==",
            &infix("<", &infix("+", &number(1), &number(2)), &infix("+", &number(3), &number(4))),
            &infix(">", &number(5), &number(6)),
        )]
    );
}

#[test]
fn a_prefix_operator_takes_only_the_operand_next_to_it() {
    assert_eq!(
        texts_of(&parse_clean("-1 * 2")),
        vec![infix("*", &prefix("-", &number(1)), &number(2))]
    );
    assert_eq!(
        texts_of(&parse_clean("!a == b")),
        vec![infix("==", &prefix("!", &name("a")), &name("b"))]
    );
    assert_eq!(texts_of(&parse_clean("--5")), vec![prefix("-", &prefix("-", five()))]);
}

#[test]
fn plus_and_less_than_are_prefix_operators_too() {
    assert_eq!(texts_of(&parse_clean("+5;")), vec![prefix("+", five())]);
    assert_eq!(texts_of(&parse_clean("<5;")), vec![prefix("<", five())]);
}

#[test]
fn parentheses_group() {
    assert_eq!(
        texts_of(&parse_clean("(1 + 2) * 3;")),
        vec![infix("*", &infix("+", &number(1), &number(2)), &number(3))]
    );
    assert_eq!(texts_of(&parse_clean("((5))")), vec![five().to_string()]);
    assert_eq!(
        texts_of(&parse_clean("-(1 + 2)")),
        vec![prefix("-", &infix("+", &number(1), &number(2)))]
    );
}

#[test]
fn an_open_parenthesis_that_is_not_closed_gives_nothing_and_logs_nothing() {
    let (program, errors) = parse_with_errors("(1 + 2");
    assert_eq!(program.statements.len(), 0);
    assert_eq!(errors.len(), 0);
    let (program, errors) = parse_with_errors("(1 + 2 7");
    assert_eq!(texts_of(&program), vec![number(7)]);
    assert_eq!(errors.len(), 0);
}

#[test]
fn the_semicolon_after_a_failed_group_starts_nothing() {
    let (program, errors) = parse_with_errors("(1 + 2; 7");
    assert_eq!(texts_of(&program), vec![number(7)]);
    assert_eq!(
        errors,
        vec!["Parsing error, no prefix parsing function defined for Semicolon".to_string()]
    );
}

#[test]
fn let_statement_shape() {
    let program = parse_clean("let x = 5;");
    assert_eq!(program.statements.len(), 1);
    match &program.statements[0] {
        Statement::Let(statement) => {
            assert_eq!(statement.identifier_name, "x");
            assert!(matches!(statement.value, Expression::IntegerLiteral { value: 5, .. }));
            assert_eq!(statement.to_string(), format!("let x = {};", five()));
        }
        other => panic!("{:?}", other),
    }
    assert_eq!(texts_of(&program), vec![format!("let x = {};", five())]);
}

#[test]
fn return_statement_shape() {
    let program = parse_clean("return 5;");
    assert_eq!(program.statements.len(), 1);
    match &program.statements[0] {
        Statement::Return(Expression::IntegerLiteral { token, value }) => {
            assert_eq!(*token, Token::Int { literal: "5".to_string() });
            assert_eq!(*value, 5);
        }
        other => panic!("{:?}", other),
    }
    assert_eq!(texts_of(&program), vec![format!("return {};", five())]);
}

#[test]
fn expression_statement_shape() {
    let program = parse_clean("foobar;");
    assert_eq!(program.statements.len(), 1);
    match &program.statements[0] {
        Statement::Expression(Expression::Identifier(token)) => {
            assert_eq!(*token, Token::Identifier { literal: "foobar".to_string() });
        }
        other => panic!("{:?}", other),
    }
    assert_eq!(texts_of(&program), vec![name("foobar")]);
}

#[test]
fn let_and_return_hold_the_expression_that_was_written() {
    assert_eq!(
        texts_of(&parse_clean("let sum = 1 + 2 * 3; return -sum; sum")),
        vec![
            format!("let sum = {};", infix("+", &number(1), &infix("*", &number(2), &number(3)))),
            format!("return {};", prefix("-", &name("sum"))),
            name("sum"),
        ]
    );
}

#[test]
fn the_semicolon_is_optional_at_the_end() {
    assert_eq!(texts_of(&parse_clean("let x = 5")), vec![format!("let x = {};", five())]);
    assert_eq!(texts_of(&parse_clean("return 5")), vec![format!("return {};", five())]);
    assert_eq!(texts_of(&parse_clean("5")), vec![five().to_string()]);
}

#[test]
fn a_return_without_expression_is_logged() {
    let (program, errors) = parse_with_errors("return");
    assert_eq!(program.statements.len(), 0);
    assert_eq!(
        errors,
        vec!["Parsing error, no prefix parsing function defined for Eof".to_string()]
    );
}

#[test]
fn empty_input_is_an_empty_program() {
    assert_eq!(parse_clean("").statements.len(), 0);
    assert_eq!(parse_clean("  \n\t ").statements.len(), 0);
}

#[test]
fn a_let_without_identifier_is_logged_and_parsing_goes_on() {
    let (program, errors) = parse_with_errors("let = 5; let y = 3;");
    assert_eq!(
        errors,
        vec![
            "Parsing error, expected: \"Identifier\", found: Assign".to_string(),
            "Parsing error, no prefix parsing function defined for Assign".to_string(),
        ]
    );
    assert_eq!(texts_of(&program), vec![five().to_string(), format!("let y = {};", number(3))]);
    let lets = program.statements.iter().filter(|s| matches!(s, Statement::Let(_))).count();
    assert_eq!(lets, 1);
}

#[test]
fn a_let_without_identifier_alone() {
    let (program, errors) = parse_with_errors("let = 5;");
    assert!(!errors.is_empty());
    assert!(program.statements.iter().all(|s| !matches!(s, Statement::Let(_))));
}

#[test]
fn a_let_without_assignment_is_logged_and_parsing_goes_on() {
    let (program, errors) = parse_with_errors("let x 5; return x;");
    assert_eq!(
        errors,
        vec!["Parsing error, expected: \"Assign\", found: Int { literal: \"5\" }".to_string()]
    );
    assert_eq!(texts_of(&program), vec![five().to_string(), format!("return {};", name("x"))]);
    assert!(program.statements.iter().all(|s| !matches!(s, Statement::Let(_))));
}

#[test]
fn a_let_at_the_end_of_the_input_is_logged() {
    let (program, errors) = parse_with_errors("let");
    assert_eq!(program.statements.len(), 0);
    assert_eq!(errors, vec!["Parsing error, expected: \"Identifier\", found: Eof".to_string()]);
    let (program, errors) = parse_with_errors("let x");
    assert_eq!(program.statements.len(), 0);
    assert_eq!(errors, vec!["Parsing error, expected: \"Assign\", found: Eof".to_string()]);
    let (program, errors) = parse_with_errors("let x =");
    assert_eq!(program.statements.len(), 0);
    assert_eq!(
        errors,
        vec!["Parsing error, no prefix parsing function defined for Eof".to_string()]
    );
}

#[test]
fn a_token_that_starts_nothing_is_logged() {
    let (program, errors) = parse_with_errors("; 5 ) @ x");
    assert_eq!(texts_of(&program), vec![five().to_string(), name("x")]);
    assert_eq!(
        errors,
        vec![
            "Parsing error, no prefix parsing function defined for Semicolon".to_string(),
            "Parsing error, no prefix parsing function defined for RightParenthesis".to_string(),
            "Parsing error, no prefix parsing function defined for Illegal".to_string(),
        ]
    );
}

#[test]
fn an_integer_that_does_not_fit_is_logged_and_gives_no_node() {
    let (program, errors) = parse_with_errors("99999999999999999999; 5;");
    assert_eq!(texts_of(&program), vec![five().to_string()]);
    assert_eq!(
        errors,
        vec![
            "Parsing error, could not parse: 99999999999999999999; number too large to fit in target type"
                .to_string(),
            "Parsing error, no prefix parsing function defined for Semicolon".to_string(),
        ]
    );
    assert_eq!(
        errors[0],
        format!(
            "Parsing error, could not parse: {}; {}",
            "99999999999999999999",
            "99999999999999999999".parse::<i64>().unwrap_err()
        )
    );
}

#[test]
fn an_integer_with_letters_is_logged_and_gives_no_node() {
    let (program, errors) = parse_with_errors("let x = 1a2; 5");
    assert_eq!(texts_of(&program), vec![five().to_string()]);
    assert_eq!(
        errors,
        vec![
            "Parsing error, could not parse: 1a2; invalid digit found in string".to_string(),
            "Parsing error, no prefix parsing function defined for Semicolon".to_string(),
        ]
    );
    assert_eq!(
        errors[0],
        format!("Parsing error, could not parse: 1a2; {}", "1a2".parse::<i64>().unwrap_err())
    );
}

#[test]
fn the_largest_integer_is_read() {
    let program = parse_clean("9223372036854775807");
    match &program.statements[0] {
        Statement::Expression(Expression::IntegerLiteral { value, .. }) => {
            assert_eq!(*value, i64::MAX)
        }
        other => panic!("{:?}", other),
    }
}

#[test]
fn if_expression_without_else() {
    let program = parse_clean("if (x < y) { x }");
    assert_eq!(program.statements.len(), 1);
    match &program.statements[0] {
        Statement::Expression(Expression::IfExpression {
            token,
            condition,
            consequence,
            alternative,
        }) => {
            assert_eq!(*token, Token::If);
            assert_eq!(format!("{:?}", condition), infix("<", &name("x"), &name("y")));
            assert_eq!(block_texts(consequence), vec![name("x")]);
            assert!(alternative.is_none());
        }
        other => panic!("{:?}", other),
    }
}

#[test]
fn if_expression_with_else() {
    let program = parse_clean("if (x < y) { return x; 1 } else { let z = y; z; }; 5");
    assert_eq!(program.statements.len(), 2);
    match &program.statements[0] {
        Statement::Expression(Expression::IfExpression { consequence, alternative, .. }) => {
            assert_eq!(
                block_texts(consequence),
                vec![format!("return {};", name("x")), number(1)]
            );
            assert_eq!(
                block_texts(alternative.as_ref().unwrap()),
                vec![format!("let z = {};", name("y")), name("z")]
            );
        }
        other => panic!("{:?}", other),
    }
    assert_eq!(text_of(&program.statements[1]), five());
}

#[test]
fn an_if_of_the_wrong_shape_gives_nothing_and_logs_nothing() {
    let (program, errors) = parse_with_errors("if x");
    assert_eq!(texts_of(&program), vec![name("x")]);
    assert_eq!(errors.len(), 0);
    let (program, errors) = parse_with_errors("if (x");
    assert_eq!(program.statements.len(), 0);
    assert_eq!(errors.len(), 0);
    let (program, errors) = parse_with_errors("if (x) y");
    assert_eq!(texts_of(&program), vec![name("y")]);
    assert_eq!(errors.len(), 0);
    let (program, errors) = parse_with_errors("if (x) { 1 } else 2");
    assert_eq!(texts_of(&program), vec![number(2)]);
    assert_eq!(errors.len(), 0);
}

#[test]
fn a_block_ends_at_the_end_of_the_input_too() {
    let program = parse_clean("if (x) { 1; 2");
    match &program.statements[0] {
        Statement::Expression(Expression::IfExpression { consequence, .. }) => {
            assert_eq!(block_texts(consequence), vec![number(1), number(2)]);
        }
        other => panic!("{:?}", other),
    }
}

#[test]
fn function_literal_with_parameters() {
    let program = parse_clean("fn(x, y) { x + y; }");
    assert_eq!(program.statements.len(), 1);
    match &program.statements[0] {
        Statement::Expression(Expression::Function { token, parameters, body }) => {
            assert_eq!(*token, Token::Function);
            let parameters: Vec<String> =
                parameters.iter().map(|parameter| format!("{:?}", parameter)).collect();
            assert_eq!(parameters, vec![name("x"), name("y")]);
            assert_eq!(block_texts(body), vec![infix("+", &name("x"), &name("y"))]);
        }
        other => panic!("{:?}", other),
    }
}

#[test]
fn function_literal_parameter_counts() {
    for (source, expected) in [
        ("fn() {}", vec![]),
        ("fn(x) {}", vec![name("x")]),
        ("fn(x, y, z) {}", vec![name("x"), name("y"), name("z")]),
    ] {
        let program = parse_clean(source);
        match &program.statements[0] {
            Statement::Expression(Expression::Function { parameters, body, .. }) => {
                let parameters: Vec<String> =
                    parameters.iter().map(|parameter| format!("{:?}", parameter)).collect();
                assert_eq!(parameters, expected);
                assert_eq!(body.statements.len(), 0);
            }
            other => panic!("{:?}", other),
        }
    }
}

#[test]
fn a_parameter_is_whatever_token_stands_in_its_place() {
    let program = parse_clean("fn(1, +) {}");
    match &program.statements[0] {
        Statement::Expression(Expression::Function { parameters, .. }) => {
            let parameters: Vec<String> =
                parameters.iter().map(|parameter| format!("{:?}", parameter)).collect();
            assert_eq!(
                parameters,
                vec!["Identifier(Int { literal: \"1\" })".to_string(), "Identifier(Plus)".to_string()]
            );
        }
        other => panic!("{:?}", other),
    }
}

#[test]
fn a_parameter_list_that_is_not_closed_is_logged() {
    let (program, errors) = parse_with_errors("fn(x y) { 1 }");
    assert_eq!(
        errors,
        vec![
            "Expected right parenthesis, got: Identifier { literal: \"y\" }".to_string(),
            "Parsing error, no prefix parsing function defined for RightParenthesis".to_string(),
            "Parsing error, no prefix parsing function defined for LeftBracket".to_string(),
            "Parsing error, no prefix parsing function defined for RightBracket".to_string(),
        ]
    );
    assert_eq!(texts_of(&program), vec![number(1)]);
}

#[test]
fn a_function_of_the_wrong_shape_gives_nothing_and_logs_nothing() {
    let (program, errors) = parse_with_errors("fn x");
    assert_eq!(texts_of(&program), vec![name("x")]);
    assert_eq!(errors.len(), 0);
    let (program, errors) = parse_with_errors("fn(x) x");
    assert_eq!(texts_of(&program), vec![name("x")]);
    assert_eq!(errors.len(), 0);
}

#[test]
fn an_operator_after_a_failed_operand_is_passed_over() {
    let (program, errors) = parse_with_errors("fn + 1");
    assert_eq!(texts_of(&program), vec![number(1)]);
    assert_eq!(errors.len(), 0);
    let (program, errors) = parse_with_errors("1 + ; 2");
    assert_eq!(texts_of(&program), vec![number(2)]);
    assert_eq!(
        errors,
        vec!["Parsing error, no prefix parsing function defined for Semicolon".to_string()]
    );
}

#[test]
fn a_call_is_not_part_of_the_language() {
    let (program, errors) = parse_with_errors("add(1)");
    assert_eq!(texts_of(&program), vec![name("add"), number(1)]);
    assert_eq!(errors.len(), 0);
    let (program, errors) = parse_with_errors("add(1, 2)");
    assert_eq!(texts_of(&program), vec![name("add"), number(2)]);
    assert_eq!(
        errors,
        vec![
            "Parsing error, no prefix parsing function defined for Comma".to_string(),
            "Parsing error, no prefix parsing function defined for RightParenthesis".to_string(),
        ]
    );
}

#[test]
fn a_parser_on_a_finished_lexer_reads_an_empty_input() {
    let mut lexer = lexer::new("1 + 2".to_string());
    while lexer.next_token().is_ok() {}
    let mut parser = parser::new(lexer);
    let program = parser.parse().unwrap();
    assert_eq!(program.statements.len(), 0);
    assert_eq!(parser.errors.len(), 0);
}

#[test]
fn a_parser_takes_up_a_lexer_where_it_stands() {
    let mut lexer = lexer::new("let x = 1 + 2".to_string());
    lexer.next_token().unwrap();
    lexer.next_token().unwrap();
    lexer.next_token().unwrap();
    let mut parser = parser::new(lexer);
    let program = parser.parse().unwrap();
    assert_eq!(texts_of(&program), vec![infix("+", &number(1), &number(2))]);
}

#[test]
fn moving_the_cursor_by_hand_skips_tokens() {
    let mut parser = parser::new(lexer::new("1 2 3 4 5".to_string()));
    parser.next_token();
    parser.next_token_n_times(2);
    parser.next_token_n_times(0);
    let program = parser.parse().unwrap();
    assert_eq!(texts_of(&program), vec![number(4), number(5)]);
    parser.next_token();
    parser.next_token_n_times(3);
    let program = parser.parse().unwrap();
    assert_eq!(program.statements.len(), 0);
    assert_eq!(parser.error_log().len(), 0);
}

#[test]
fn parsing_again_keeps_the_log() {
    let mut parser = parser::new(lexer::new("let 1; )".to_string()));
    let first = parser.parse().unwrap();
    let logged = parser.errors.clone();
    assert_eq!(texts_of(&first), vec![number(1)]);
    assert_eq!(logged.len(), 2);
    let second = parser.parse().unwrap();
    assert_eq!(second.statements.len(), 0);
    assert_eq!(parser.errors, logged);
    assert_eq!(parser.error_log(), &logged);
}

#[test]
fn boolean_literals_hold_their_value() {
    let program = parse_clean("true; false");
    assert_eq!(
        texts_of(&program),
        vec![
            "Boolean { token: True, value: true }".to_string(),
            "Boolean { token: False, value: false }".to_string(),
        ]
    );
}

#[test]
fn statements_in_a_row_without_semicolons() {
    assert_eq!(texts_of(&parse_clean("1 2 a")), vec![number(1), number(2), name("a")]);
}
