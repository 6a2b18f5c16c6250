use lox::environment::Environment;
use lox::interpret::{interpret, Operation, Reply, Request, RuntimeError};
use lox::lex::Scan;
use lox::parse::{parse, ParseErr};
use lox::stmt::Stmt;
use lox::token::{Literal, Token, TokenKind, ValueKind};

fn lex(source: &str) -> Vec<Token> {
    let mut lexer = lox::lex::lex("<test>".to_string(), source);
    loop {
        match lexer.scan() {
            Scan::Number { lexeme, fractional } => {
                let value: f64 = if fractional {
                    lexeme.parse().unwrap()
                } else {
                    lexeme.parse::<u64>().unwrap() as f64
                };
                lexer.number_value(value.to_bits());
            }
            Scan::Unexpected { character, .. } => panic!("unexpected char {}", character),
            Scan::Finished => break,
        }
    }
    lexer.finish()
}

fn answer(request: &Request) -> Reply {
    match request {
        Request::Arithmetic { operation, left, right } => {
            let (left, right) = (f64::from_bits(*left), f64::from_bits(*right));
            let value = match operation {
                Operation::Add => left + right,
                Operation::Subtract => left - right,
                Operation::Multiply => left * right,
            };
            Reply::Number(value.to_bits())
        }
        Request::Format { number } => Reply::Text(format!("{}", f64::from_bits(*number))),
        _ => Reply::Nothing,
    }
}

struct Run {
    output: Vec<String>,
    error: Option<RuntimeError>,
    environment: Environment,
}

fn execute(statements: &Vec<Stmt>, environment: Option<Environment>, one_by_one: bool) -> Run {
    let mut machine = interpret(statements, environment);
    let mut output = Vec::new();
    let mut reply = Reply::Nothing;
    loop {
        let request = if one_by_one { machine.step(reply) } else { machine.run(reply, 1000) };
        reply = answer(&request);
        match request {
            Request::Print { text } => output.push(text),
            Request::Finished => {
                assert!(machine.is_done());
                return Run { output, error: None, environment: machine.into_environment() };
            }
            Request::Failed { error } => {
                assert!(machine.is_done());
                return Run { output, error: Some(error), environment: machine.into_environment() };
            }
            _ => {}
        }
    }
}

fn run(source: &str) -> (Vec<String>, Vec<ParseErr>, Option<RuntimeError>) {
    let (statements, errors) = parse(lex(source));
    let run = execute(&statements, None, false);
    (run.output, errors, run.error)
}

fn prints(source: &str) -> Vec<String> {
    let (output, errors, error) = run(source);
    assert!(errors.is_empty(), "parse errors: {:?}", errors);
    assert_eq!(error, None);
    output
}

fn lines(expected: &[&str]) -> Vec<String> {
    expected.iter().map(|line| line.to_string()).collect()
}

#[test]
fn not_follows_truthiness() {
    assert_eq!(prints("print !false;"), lines(&["true"]));
    assert_eq!(prints("print !0;"), lines(&["false"]));
    assert_eq!(prints("print !\"\";"), lines(&["false"]));
    assert_eq!(prints("print !nil;"), lines(&["true"]));
    assert_eq!(prints("print !true;"), lines(&["false"]));
}

#[test]
fn double_not_gives_truthiness() {
    assert_eq!(prints("print !!nil; print !!false;"), lines(&["false", "false"]));
    assert_eq!(prints("print !!0; print !!\"\"; print !!\"a\"; print !!true;"),
        lines(&["true", "true", "true", "true"]));
}

#[test]
fn plus_adds_numbers_and_joins_texts() {
    assert_eq!(prints("print \"a\" + 1;"), lines(&["a1"]));
    assert_eq!(prints("print 1 + \"a\";"), lines(&["1a"]));
    assert_eq!(prints("print 1 + 2;"), lines(&["3"]));
    assert_eq!(prints("print \"a\" + \"b\";"), lines(&["ab"]));
}

#[test]
fn plus_coerces_bool_and_nil_next_to_text() {
    assert_eq!(prints("print \"a\" + true;"), lines(&["atrue"]));
    assert_eq!(prints("print false + \"a\";"), lines(&["falsea"]));
    assert_eq!(prints("print nil + \"a\" + nil;"), lines(&["nilanil"]));
    assert_eq!(prints("print \"x\" + 1.5 + \"y\" + 2;"), lines(&["x1.5y2"]));
}

#[test]
fn plus_rejects_other_kinds() {
    let (output, errors, error) = run("print 1 + true;");
    assert!(output.is_empty());
    assert!(errors.is_empty());
    match error {
        Some(RuntimeError::TypeMismatch { operator, left, right }) => {
            assert_eq!(operator.kind, TokenKind::Plus);
            assert_eq!(left, Some(ValueKind::Number));
            assert_eq!(right, ValueKind::Bool);
        }
        other => panic!("unexpected outcome {:?}", other),
    }
    assert!(matches!(run("print nil + nil;").2, Some(RuntimeError::TypeMismatch { .. })));
}

#[test]
fn equality_is_kind_sensitive() {
    assert_eq!(prints("print 1 == \"1\";"), lines(&["false"]));
    assert_eq!(prints("print nil == false;"), lines(&["false"]));
    assert_eq!(prints("print 1 == 1.0;"), lines(&["true"]));
    assert_eq!(prints("print 1 != \"1\";"), lines(&["true"]));
    assert_eq!(prints("print \"ab\" == \"a\" + \"b\";"), lines(&["true"]));
    assert_eq!(prints("print nil == nil; print true == true; print true != false;"),
        lines(&["true", "true", "true"]));
}

#[test]
fn inner_declaration_shadows_and_does_not_leak() {
    assert_eq!(prints("var a = 1; { var a = 2; print a; } print a;"), lines(&["2", "1"]));
}

#[test]
fn assignment_reaches_enclosing_scope() {
    assert_eq!(prints("var a = 1; { a = 2; } print a;"), lines(&["2"]));
    assert_eq!(prints("var a = 1; { var a = 5; { a = 2; } print a; } print a;"),
        lines(&["2", "1"]));
}

#[test]
fn assignment_is_an_expression() {
    assert_eq!(prints("var a; var b; a = b = 3; print a; print b; print a = 4;"),
        lines(&["3", "3", "4"]));
}

#[test]
fn for_loop_runs_like_its_while_loop() {
    let with_for = prints("for (var i = 0; i < 3; i = i + 1) print i;");
    let with_while = prints("{ var i = 0; while (i < 3) { print i; i = i + 1; } }");
    assert_eq!(with_for, lines(&["0", "1", "2"]));
    assert_eq!(with_for, with_while);
}

#[test]
fn for_loop_parses_to_its_while_loop() {
    let (with_for, errors) = parse(lex("for (var i = 0; i < 3; i = i + 1) print i;"));
    assert!(errors.is_empty());
    assert_eq!(with_for.len(), 1);
    match &with_for[0] {
        Stmt::Block { statements } => {
            assert_eq!(statements.len(), 2);
            assert!(matches!(statements[0], Stmt::Var { initializer: Some(_), .. }));
            match &statements[1] {
                Stmt::While { body, .. } => match &**body {
                    Stmt::Block { statements } => {
                        assert_eq!(statements.len(), 2);
                        assert!(matches!(statements[0], Stmt::Print { .. }));
                        assert!(matches!(statements[1], Stmt::Expression { .. }));
                    }
                    other => panic!("unexpected body {:?}", other),
                },
                other => panic!("unexpected statement {:?}", other),
            }
        }
        other => panic!("unexpected statement {:?}", other),
    }
}

#[test]
fn for_loop_clauses_may_be_empty() {
    let (statements, errors) = parse(lex("for (;;) print 1;"));
    assert!(errors.is_empty());
    match &statements[0] {
        Stmt::While { condition, body } => {
            assert_eq!(*condition, lox::stmt::Expr::Literal { val: Literal::Bool(true) });
            assert!(matches!(**body, Stmt::Print { .. }));
        }
        other => panic!("unexpected statement {:?}", other),
    }
    assert_eq!(prints("var i = 0; for (; i < 2;) { print i; i = i + 1; }"), lines(&["0", "1"]));
    assert_eq!(prints("var i = 0; for (i = 5; i < 7; i = i + 1) print i;"), lines(&["5", "6"]));
}

#[test]
fn parser_recovers_after_each_broken_statement() {
    let (output, errors, error) = run("var = 1; print 2; print 3 4;");
    assert_eq!(errors.len(), 2);
    assert_eq!(errors[0].message, "Expect variable name.");
    assert_eq!(errors[0].token.kind, TokenKind::Equal);
    assert_eq!(errors[1].message, "Expect ';' after value.");
    assert_eq!(errors[1].token.kind, TokenKind::Number(4.0f64.to_bits()));
    assert_eq!(error, None);
    assert_eq!(output, lines(&["2"]));
}

#[test]
fn statement_between_two_broken_ones_is_run() {
    let cases = [
        "var x = ; print 2; print ;",
        "print ; print 2; 1 + ;",
        "(1; print 2; var 3;",
        "if 1) 0; print 2; while (;",
        "1 = 2; print 2; a + b = 3;",
        "; print 2; }",
    ];
    for source in cases {
        let (output, errors, error) = run(source);
        assert_eq!(errors.len(), 2, "{}", source);
        assert_eq!(error, None, "{}", source);
        assert_eq!(output, lines(&["2"]), "{}", source);
    }
}

#[test]
fn recovery_stops_in_front_of_a_statement_keyword() {
    let (output, errors, _) = run("print 1 2 3 print 4; (5; print 6;");
    assert_eq!(errors.len(), 2);
    assert_eq!(errors[1].message, "Expect ')' after expression.");
    assert_eq!(output, lines(&["4", "6"]));
}

#[test]
fn logical_operators_return_an_operand() {
    assert_eq!(prints("print nil or \"x\";"), lines(&["x"]));
    assert_eq!(prints("print false and \"y\";"), lines(&["false"]));
    assert_eq!(prints("print 0 and \"y\";"), lines(&["y"]));
    assert_eq!(prints("print 1 or 2;"), lines(&["1"]));
    assert_eq!(prints("print nil and 2;"), lines(&["nil"]));
    assert_eq!(prints("print false or nil;"), lines(&["nil"]));
}

#[test]
fn logical_operators_skip_the_right_operand() {
    assert_eq!(prints("var a = 1; true or (a = 2); print a;"), lines(&["1"]));
    assert_eq!(prints("var a = 1; false and (a = 2); print a;"), lines(&["1"]));
    assert_eq!(prints("var a = 1; false or (a = 2); print a;"), lines(&["2"]));
    assert_eq!(prints("var a = 1; true and (a = 2); print a;"), lines(&["2"]));
}

#[test]
fn two_runs_on_the_same_tokens_agree() {
    let source = "var a = 1; for (var i = 0; i < 3; i = i + 1) { a = a * 2; print a + \"!\"; } print b;";
    let (first, first_errors) = parse(lex(source));
    let (second, second_errors) = parse(lex(source));
    assert_eq!(first, second);
    assert_eq!(first_errors, second_errors);
    let one = execute(&first, Some(Environment::new()), false);
    let two = execute(&second, Some(Environment::new()), true);
    assert_eq!(one.output, lines(&["2!", "4!", "8!"]));
    assert_eq!(one.output, two.output);
    assert!(matches!(one.error, Some(RuntimeError::UndefinedVariable { .. })));
    assert_eq!(one.error, two.error);
}

#[test]
fn stepping_and_running_agree() {
    let (statements, _) = parse(lex(
        "var n = 0; while (n < 5) { n = n + 1; if (n == 3) print \"three\"; else print n; }",
    ));
    let stepped = execute(&statements, None, true);
    let ran = execute(&statements, None, false);
    assert_eq!(stepped.output, lines(&["1", "2", "three", "4", "5"]));
    assert_eq!(stepped.output, ran.output);
}

#[test]
fn environment_carries_over_between_programs() {
    let (first, _) = parse(lex("var a = 1; var b;"));
    let (second, _) = parse(lex("print a; a = a + 1; print a; b = \"set\"; print b;"));
    let run = execute(&first, None, false);
    assert_eq!(run.error, None);
    let mut environment = run.environment;
    assert_eq!(environment.get("a"), Some(Literal::Number(1.0f64.to_bits())));
    assert_eq!(environment.get("b"), None);
    let run = execute(&second, Some(environment), false);
    assert_eq!(run.output, lines(&["1", "2", "set"]));
}

#[test]
fn reading_an_undefined_variable_fails() {
    let (output, _, error) = run("print 1; print missing; print 2;");
    assert_eq!(output, lines(&["1"]));
    match error {
        Some(RuntimeError::UndefinedVariable { name }) => assert_eq!(name.name(), "missing"),
        other => panic!("unexpected outcome {:?}", other),
    }
}

#[test]
fn reading_an_uninitialized_variable_fails() {
    let (output, _, error) = run("var a; print a;");
    assert!(output.is_empty());
    assert!(matches!(error, Some(RuntimeError::UndefinedVariable { .. })));
    assert_eq!(prints("var a; a = nil; print a;"), lines(&["nil"]));
}

#[test]
fn assigning_an_undeclared_variable_fails() {
    let (output, _, error) = run("a = 1; print 2;");
    assert!(output.is_empty());
    match error {
        Some(RuntimeError::UndefinedVariable { name }) => assert_eq!(name.name(), "a"),
        other => panic!("unexpected outcome {:?}", other),
    }
}

#[test]
fn failure_leaves_every_block_and_keeps_outer_bindings() {
    let (statements, _) = parse(lex("var a = 1; { var b = 2; { a = 3; print -\"x\"; } }"));
    let run = execute(&statements, None, false);
    match run.error {
        Some(RuntimeError::TypeMismatch { operator, left, right }) => {
            assert_eq!(operator.kind, TokenKind::Minus);
            assert_eq!(left, None);
            assert_eq!(right, ValueKind::Str);
        }
        other => panic!("unexpected outcome {:?}", other),
    }
    let mut environment = run.environment;
    assert_eq!(environment.nesting(), 0);
    assert_eq!(environment.get("a"), Some(Literal::Number(3.0f64.to_bits())));
    assert_eq!(environment.get("b"), None);
    let (later, _) = parse(lex("print a;"));
    assert_eq!(execute(&later, Some(environment), false).output, lines(&["3"]));
}

#[test]
fn arithmetic_and_comparison() {
    assert_eq!(prints("print 7 - 2 * 3;"), lines(&["1"]));
    assert_eq!(prints("print (7 - 2) * 3;"), lines(&["15"]));
    assert_eq!(prints("print 1 - 2 - 3;"), lines(&["-4"]));
    assert_eq!(prints("print -3 * -2;"), lines(&["6"]));
    assert_eq!(prints("print 0.1 + 0.2;"), lines(&["0.30000000000000004"]));
    assert_eq!(prints("print 1 < 2; print 2 <= 2; print 3 > 4; print 4 >= 5;"),
        lines(&["true", "true", "false", "false"]));
    assert_eq!(prints("print 1 < 2 == true;"), lines(&["true"]));
    assert_eq!(prints("print -0.5 < 0.25; print -2 < -3; print 0 >= -0;"),
        lines(&["true", "false", "true"]));
}

#[test]
fn comparison_needs_numbers() {
    assert!(matches!(run("print 1 < \"2\";").2, Some(RuntimeError::TypeMismatch { .. })));
    assert!(matches!(run("print \"a\" >= \"b\";").2, Some(RuntimeError::TypeMismatch { .. })));
    assert!(matches!(run("print true - 1;").2, Some(RuntimeError::TypeMismatch { .. })));
    assert!(matches!(run("print nil * 2;").2, Some(RuntimeError::TypeMismatch { .. })));
}

#[test]
fn division_has_no_meaning() {
    let (statements, errors) = parse(lex("print 6 / 2;"));
    assert!(errors.is_empty());
    assert!(matches!(statements[0], Stmt::Print { .. }));
    match execute(&statements, None, false).error {
        Some(RuntimeError::TypeMismatch { operator, left, right }) => {
            assert_eq!(operator.kind, TokenKind::Slash);
            assert_eq!(left, Some(ValueKind::Number));
            assert_eq!(right, ValueKind::Number);
        }
        other => panic!("unexpected outcome {:?}", other),
    }
}

#[test]
fn if_and_else() {
    assert_eq!(prints("if (1 < 2) print \"yes\"; else print \"no\";"), lines(&["yes"]));
    assert_eq!(prints("if (nil) print \"yes\"; else print \"no\";"), lines(&["no"]));
    assert_eq!(prints("if (false) print \"yes\"; print \"after\";"), lines(&["after"]));
    assert_eq!(prints("if (true) if (false) print 1; else print 2;"), lines(&["2"]));
}

#[test]
fn while_with_false_condition_runs_never() {
    assert_eq!(prints("while (false) print 1; print 2;"), lines(&["2"]));
    assert_eq!(prints("while (nil) print 1;"), lines(&[] as &[&str]));
}

#[test]
fn print_shows_each_kind() {
    assert_eq!(prints("print true; print false; print nil; print 12; print 2.5; print \"text\";"),
        lines(&["true", "false", "nil", "12", "2.5", "text"]));
}

#[test]
fn grouping_is_transparent() {
    assert_eq!(prints("print (((1)));"), lines(&["1"]));
    assert_eq!(prints("print (\"a\") + (\"b\");"), lines(&["ab"]));
}

#[test]
fn wrong_reply_stops_the_program() {
    let (statements, _) = parse(lex("print 1 + 2; print 3;"));
    let mut machine = interpret(&statements, None);
    let mut request = machine.step(Reply::Nothing);
    while request == Request::Continue {
        request = machine.step(Reply::Nothing);
    }
    assert_eq!(request, Request::Arithmetic {
        operation: Operation::Add,
        left: 1.0f64.to_bits(),
        right: 2.0f64.to_bits(),
    });
    assert_eq!(machine.step(Reply::Text("3".to_string())),
        Request::Failed { error: RuntimeError::UnexpectedReply });
    assert_eq!(machine.step(Reply::Nothing), Request::Finished);
}

#[test]
fn run_stops_at_its_limit() {
    let (statements, _) = parse(lex("while (true) {}"));
    let mut machine = interpret(&statements, None);
    assert_eq!(machine.run(Reply::Nothing, 0), Request::Continue);
    assert_eq!(machine.run(Reply::Nothing, 10000), Request::Continue);
    assert!(!machine.is_done());
}

#[test]
fn empty_program_finishes_at_once() {
    let statements: Vec<Stmt> = Vec::new();
    let mut machine = interpret(&statements, None);
    assert_eq!(machine.step(Reply::Nothing), Request::Continue);
    assert_eq!(machine.step(Reply::Nothing), Request::Finished);
    assert_eq!(machine.environment().nesting(), 0);
}

#[test]
fn token_outside_its_source_stops_the_program() {
    let source = std::rc::Rc::new(lox::token::Source::new("s".to_string(), vec!['a']));
    let misplaced = Token {
        kind: TokenKind::Identifier,
        span: lox::token::Range(0, 2),
        line: 1,
        source: source.clone(),
    };
    let declare = vec![
        Stmt::Print { expr: lox::stmt::Expr::Literal { val: Literal::Nil } },
        Stmt::Block { statements: vec![Stmt::Var { name: misplaced.clone(), initializer: None }] },
        Stmt::Print { expr: lox::stmt::Expr::Literal { val: Literal::Nil } },
    ];
    let run = execute(&declare, None, true);
    assert_eq!(run.output, lines(&["nil"]));
    assert_eq!(run.error, Some(RuntimeError::Malformed));
    assert_eq!(run.environment.nesting(), 0);
    let read = vec![Stmt::Expression { expr: lox::stmt::Expr::Variable { name: misplaced.clone() } }];
    assert_eq!(execute(&read, None, false).error, Some(RuntimeError::Malformed));
    let assign = vec![Stmt::Expression {
        expr: lox::stmt::Expr::Assign {
            name: misplaced.clone(),
            value: Box::new(lox::stmt::Expr::Literal { val: Literal::Nil }),
        },
    }];
    assert_eq!(execute(&assign, None, false).error, Some(RuntimeError::Malformed));
    let define = vec![Stmt::Var {
        name: misplaced,
        initializer: Some(lox::stmt::Expr::Literal { val: Literal::Nil }),
    }];
    assert_eq!(execute(&define, None, false).error, Some(RuntimeError::Malformed));
}

#[test]
fn operator_that_is_none_is_a_mismatch() {
    let source = std::rc::Rc::new(lox::token::Source::new("s".to_string(), vec!['a', 'b']));
    let comma = Token {
        kind: TokenKind::Comma,
        span: lox::token::Range(0, 1),
        line: 1,
        source: source.clone(),
    };
    let one = lox::stmt::Expr::Literal { val: Literal::Number(1.0f64.to_bits()) };
    let unary = vec![Stmt::Expression {
        expr: lox::stmt::Expr::Unary { operator: comma.clone(), right: Box::new(one) },
    }];
    assert!(matches!(execute(&unary, None, false).error, Some(RuntimeError::TypeMismatch {
        left: None,
        right: ValueKind::Number,
        ..
    })));
    let logical = vec![Stmt::Print {
        expr: lox::stmt::Expr::Logical {
            left: Box::new(lox::stmt::Expr::Literal { val: Literal::Nil }),
            operator: comma,
            right: Box::new(lox::stmt::Expr::Literal { val: Literal::Bool(true) }),
        },
    }];
    assert_eq!(execute(&logical, None, false).output, lines(&["nil"]));
}

#[test]
fn requests_for_a_number_next_to_a_text() {
    let (statements, _) = parse(lex("print 2 + \"a\"; print \"b\" + 0.5; print 3;"));
    let mut machine = interpret(&statements, None);
    let mut requests = Vec::new();
    let mut reply = Reply::Nothing;
    loop {
        let request = machine.run(reply, 100);
        reply = match &request {
            Request::Format { number } if *number == 2.0f64.to_bits() => Reply::Text("two".to_string()),
            Request::Format { number } if *number == 0.5f64.to_bits() => Reply::Text("half".to_string()),
            Request::Format { .. } => Reply::Text("three".to_string()),
            _ => Reply::Nothing,
        };
        let done = request == Request::Finished;
        requests.push(request);
        if done {
            break;
        }
    }
    assert_eq!(requests, vec![
        Request::Format { number: 2.0f64.to_bits() },
        Request::Print { text: "twoa".to_string() },
        Request::Format { number: 0.5f64.to_bits() },
        Request::Print { text: "bhalf".to_string() },
        Request::Format { number: 3.0f64.to_bits() },
        Request::Print { text: "three".to_string() },
        Request::Finished,
    ]);
}

#[test]
fn reply_without_a_request_is_not_read() {
    let (statements, _) = parse(lex("print \"a\";"));
    let mut machine = interpret(&statements, None);
    assert_eq!(machine.step(Reply::Number(7)), Request::Continue);
    assert_eq!(machine.run(Reply::Text("x".to_string()), 100),
        Request::Print { text: "a".to_string() });
    assert_eq!(machine.run(Reply::Number(1), 100), Request::Finished);
}

#[test]
fn text_awaited_and_number_given_stops_the_program() {
    let (statements, _) = parse(lex("{ var a = 1; print a; }"));
    let mut machine = interpret(&statements, None);
    assert_eq!(machine.run(Reply::Nothing, 100), Request::Format { number: 1.0f64.to_bits() });
    assert_eq!(machine.step(Reply::Number(1)),
        Request::Failed { error: RuntimeError::UnexpectedReply });
    assert_eq!(machine.environment().nesting(), 0);
    assert_eq!(machine.step(Reply::Nothing), Request::Finished);
}

#[test]
fn exit_status_of_a_script() {
    assert_eq!(lox::exit::exit_code(false, false), 0);
    assert_eq!(lox::exit::exit_code(true, false), 65);
    assert_eq!(lox::exit::exit_code(false, true), 70);
    assert_eq!(lox::exit::exit_code(true, true), 65);
}
