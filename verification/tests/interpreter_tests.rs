use rox::ast::{Expr, Stmt};
use rox::errors::RuntimeError;
use rox::interpreter::{
    apply_binary, apply_unary, is_equal, is_truthy, Action, ArithOp, Interpreter, Outcome, Reply,
    Request,
};
use rox::report::Reporter;
use rox::runner::Loaded;
use rox::tokens::{Literal, Token, TokenType};
use rox::value::Value;

fn answer(request: &Request) -> Reply {
    match request {
        Request::Parse(numeral) => Reply::Number(numeral.parse::<f64>().unwrap().to_bits()),
        Request::Arithmetic(op, a, b) => {
            let (x, y) = (f64::from_bits(*a), f64::from_bits(*b));
            let z = match op {
                ArithOp::Add => x + y,
                ArithOp::Subtract => x - y,
                ArithOp::Multiply => x * y,
                ArithOp::Divide => x / y,
            };
            Reply::Number(z.to_bits())
        }
        Request::Format(n) => Reply::Text(f64::from_bits(*n).to_string()),
    }
}

fn drive(interpreter: &mut Interpreter) -> (Vec<String>, Option<RuntimeError>) {
    let mut printed = Vec::new();
    let mut reply = Reply::Nothing;
    for _ in 0..100_000 {
        match interpreter.step(std::mem::replace(&mut reply, Reply::Nothing)) {
            Action::Proceed => {}
            Action::Ask(request) => reply = answer(&request),
            Action::Print(line) => printed.push(line),
            Action::Finished => return (printed, None),
            Action::Failed(e) => return (printed, Some(e)),
        }
    }
    panic!("the program did not come to an end");
}

fn load(interpreter: &mut Interpreter, source: &str) {
    let mut reporter = Reporter::new();
    assert_eq!(rox::run(source, interpreter, &mut reporter), Loaded::Ready);
    assert_eq!(reporter.count(), 0);
}

fn run(source: &str) -> (Vec<String>, Option<RuntimeError>) {
    let mut interpreter = Interpreter::new();
    load(&mut interpreter, source);
    drive(&mut interpreter)
}

fn prints(source: &str) -> Vec<String> {
    let (printed, error) = run(source);
    assert_eq!(error, None);
    printed
}

fn name(text: &str) -> Token {
    Token::new(TokenType::Identifier, text, None, 1)
}

/// The value of the expression `source`, through a variable.
fn evaluate(source: &str) -> Result<Value, RuntimeError> {
    let mut interpreter = Interpreter::new();
    load(&mut interpreter, &format!("var result = {};", source));
    match drive(&mut interpreter) {
        (_, Some(e)) => Err(e),
        (_, None) => Ok(interpreter.variable(&name("result")).unwrap()),
    }
}

fn number(x: f64) -> Value {
    Value::Number(x.to_bits())
}

fn text(s: &str) -> Value {
    Value::String_(s.to_owned())
}

fn op(type_: TokenType, lexeme: &str) -> Token {
    Token::new(type_, lexeme, None, 7)
}

#[test]
fn numeric_literal_evaluates_to_the_number_as_parsed() {
    for numeral in ["0", "1", "3", "12.5", "0.1", "123456789.125", "9007199254740993", "0.30000000000000004"] {
        assert_eq!(evaluate(numeral), Ok(number(numeral.parse::<f64>().unwrap())));
    }
}

#[test]
fn numeric_literal_asks_for_its_own_numeral_and_takes_the_answer_bit_for_bit() {
    let mut interpreter = Interpreter::new();
    load(&mut interpreter, "var x = 12.50;");
    assert_eq!(interpreter.step(Reply::Nothing), Action::Proceed);
    assert_eq!(
        interpreter.step(Reply::Nothing),
        Action::Ask(Request::Parse("12.50".to_owned()))
    );
    let odd = 0x7ff8_0000_0000_1234u64;
    assert_eq!(interpreter.step(Reply::Number(odd)), Action::Proceed);
    assert_eq!(drive(&mut interpreter), (vec![], None));
    assert_eq!(interpreter.variable(&name("x")), Ok(Value::Number(odd)));
}

#[test]
fn one_plus_two_is_three() {
    assert_eq!(evaluate("1 + 2"), Ok(number(3.0)));
}

#[test]
fn strings_are_joined_by_plus() {
    assert_eq!(evaluate("\"a\" + \"b\""), Ok(text("ab")));
    assert_eq!(evaluate("\"\" + \"\""), Ok(text("")));
    assert_eq!(evaluate("\"a\" + \"b\" + \"c\""), Ok(text("abc")));
}

#[test]
fn number_plus_string_is_a_type_error() {
    assert_eq!(
        evaluate("1 + \"a\""),
        Err(RuntimeError::OperandsMustBeNumbersOrStrings { line: 1 })
    );
    assert_eq!(
        evaluate("\"a\" + 1"),
        Err(RuntimeError::OperandsMustBeNumbersOrStrings { line: 1 })
    );
    assert_eq!(
        evaluate("nil + nil"),
        Err(RuntimeError::OperandsMustBeNumbersOrStrings { line: 1 })
    );
}

#[test]
fn not_nil_is_true() {
    assert_eq!(evaluate("!nil"), Ok(Value::Bool(true)));
}

#[test]
fn not_zero_is_false() {
    assert_eq!(evaluate("!0"), Ok(Value::Bool(false)));
}

#[test]
fn truthiness() {
    assert!(!is_truthy(&Value::Nil));
    assert!(!is_truthy(&Value::Bool(false)));
    assert!(is_truthy(&Value::Bool(true)));
    assert!(is_truthy(&number(0.0)));
    assert!(is_truthy(&number(-0.0)));
    assert!(is_truthy(&number(f64::NAN)));
    assert!(is_truthy(&text("")));
    assert!(is_truthy(&text("false")));
    assert_eq!(evaluate("!true"), Ok(Value::Bool(false)));
    assert_eq!(evaluate("!false"), Ok(Value::Bool(true)));
    assert_eq!(evaluate("!\"\""), Ok(Value::Bool(false)));
    assert_eq!(evaluate("!!nil"), Ok(Value::Bool(false)));
}

#[test]
fn inner_var_shadows_without_leaking_out() {
    assert_eq!(prints("var x = 1; { var x = 2; } print x;"), vec!["1"]);
    assert_eq!(
        prints("var x = 1; { var x = 2; print x; { var x = 3; print x; } print x; } print x;"),
        vec!["2", "3", "2", "1"]
    );
}

#[test]
fn assignment_without_declaration_fails_and_defines_nothing() {
    let mut interpreter = Interpreter::new();
    load(&mut interpreter, "x = 1;");
    let (printed, error) = drive(&mut interpreter);
    assert_eq!(printed, Vec::<String>::new());
    assert_eq!(
        error,
        Some(RuntimeError::UndefinedVariable { name: "x".to_owned(), line: 1 })
    );
    assert_eq!(
        interpreter.variable(&name("x")),
        Err(RuntimeError::UndefinedVariable { name: "x".to_owned(), line: 1 })
    );
    assert!(interpreter.is_finished());
}

#[test]
fn loop_sums_up_to_ten() {
    assert_eq!(
        prints("var i = 0; var s = 0; while (i < 5) { s = s + i; i = i + 1; } print s;"),
        vec!["10"]
    );
}

#[test]
fn same_tree_same_environment_same_value() {
    let mut reporter = Reporter::new();
    let mut scanner = rox::scanner::Scanner::new("var r = (1 + 2) * 3 - 4 / 8;".to_owned());
    let tokens = scanner.scan_tokens(&mut reporter);
    let mut parser = rox::parser::Parser::new(tokens);
    let tree = parser.parse(&mut reporter);
    let mut interpreter = Interpreter::new();
    let mut seen = Vec::new();
    for _ in 0..3 {
        interpreter.interpret(&tree);
        assert_eq!(drive(&mut interpreter), (vec![], None));
        seen.push(interpreter.variable(&name("r")).unwrap());
    }
    assert_eq!(seen, vec![number(8.5), number(8.5), number(8.5)]);
}

#[test]
fn same_program_runs_the_same_way_twice() {
    let source = "var a = 1; var b = \"x\"; { var a = a + 1; print a; } print b + b; print a / 3;";
    assert_eq!(run(source), run(source));
}

#[test]
fn arithmetic() {
    assert_eq!(evaluate("7 - 2"), Ok(number(5.0)));
    assert_eq!(evaluate("2 - 7"), Ok(number(-5.0)));
    assert_eq!(evaluate("3 * 4"), Ok(number(12.0)));
    assert_eq!(evaluate("1 / 4"), Ok(number(0.25)));
    assert_eq!(evaluate("1 + 2 * 3"), Ok(number(7.0)));
    assert_eq!(evaluate("(1 + 2) * 3"), Ok(number(9.0)));
    assert_eq!(evaluate("10 - 4 - 3"), Ok(number(3.0)));
    assert_eq!(evaluate("0.1 + 0.2"), Ok(number(0.1 + 0.2)));
    assert_eq!(evaluate("1 / 0"), Ok(number(f64::INFINITY)));
    assert_eq!(evaluate("-1 / 0"), Ok(number(f64::NEG_INFINITY)));
}

#[test]
fn arithmetic_on_other_values_is_a_type_error() {
    for source in ["1 - \"a\"", "\"a\" * 2", "nil / 1", "true - false", "\"a\" - \"b\""] {
        assert_eq!(evaluate(source), Err(RuntimeError::OperandsMustBeNumbers { line: 1 }));
    }
}

#[test]
fn ordering() {
    assert_eq!(evaluate("1 < 2"), Ok(Value::Bool(true)));
    assert_eq!(evaluate("2 < 1"), Ok(Value::Bool(false)));
    assert_eq!(evaluate("2 < 2"), Ok(Value::Bool(false)));
    assert_eq!(evaluate("2 <= 2"), Ok(Value::Bool(true)));
    assert_eq!(evaluate("3 <= 2"), Ok(Value::Bool(false)));
    assert_eq!(evaluate("3 > 2"), Ok(Value::Bool(true)));
    assert_eq!(evaluate("2 > 3"), Ok(Value::Bool(false)));
    assert_eq!(evaluate("2 >= 2"), Ok(Value::Bool(true)));
    assert_eq!(evaluate("1 >= 2"), Ok(Value::Bool(false)));
    assert_eq!(evaluate("-1 < 1"), Ok(Value::Bool(true)));
    assert_eq!(evaluate("-2 < -1"), Ok(Value::Bool(true)));
    assert_eq!(evaluate("-1 < -2"), Ok(Value::Bool(false)));
    assert_eq!(evaluate("0 < -0"), Ok(Value::Bool(false)));
    assert_eq!(evaluate("0 >= -0"), Ok(Value::Bool(true)));
    assert_eq!(evaluate("0 / 0 < 1"), Ok(Value::Bool(false)));
    assert_eq!(evaluate("0 / 0 >= 1"), Ok(Value::Bool(false)));
    assert_eq!(evaluate("1 / 0 > 1000000"), Ok(Value::Bool(true)));
}

#[test]
fn ordering_other_values_is_a_type_error() {
    for source in ["1 < \"a\"", "\"a\" > \"b\"", "nil <= 1", "true >= false"] {
        assert_eq!(evaluate(source), Err(RuntimeError::OperandsMustBeNumbers { line: 1 }));
    }
}

#[test]
fn equality() {
    assert_eq!(evaluate("nil == nil"), Ok(Value::Bool(true)));
    assert_eq!(evaluate("1 == 1"), Ok(Value::Bool(true)));
    assert_eq!(evaluate("1 == 2"), Ok(Value::Bool(false)));
    assert_eq!(evaluate("1 != 2"), Ok(Value::Bool(true)));
    assert_eq!(evaluate("\"a\" == \"a\""), Ok(Value::Bool(true)));
    assert_eq!(evaluate("\"a\" == \"b\""), Ok(Value::Bool(false)));
    assert_eq!(evaluate("\"a\" != \"b\""), Ok(Value::Bool(true)));
    assert_eq!(evaluate("true == true"), Ok(Value::Bool(true)));
    assert_eq!(evaluate("true == false"), Ok(Value::Bool(false)));
    assert_eq!(evaluate("0 == -0"), Ok(Value::Bool(true)));
    assert_eq!(evaluate("0 / 0 == 0 / 0"), Ok(Value::Bool(false)));
    assert_eq!(evaluate("0 / 0 != 0 / 0"), Ok(Value::Bool(true)));
    assert_eq!(evaluate("0.1 + 0.2 == 0.3"), Ok(Value::Bool(false)));
}

#[test]
fn values_of_different_types_are_never_equal() {
    assert_eq!(evaluate("1 == \"1\""), Ok(Value::Bool(false)));
    assert_eq!(evaluate("nil == false"), Ok(Value::Bool(false)));
    assert_eq!(evaluate("0 == false"), Ok(Value::Bool(false)));
    assert_eq!(evaluate("\"\" == nil"), Ok(Value::Bool(false)));
    assert_eq!(evaluate("1 != \"1\""), Ok(Value::Bool(true)));
    assert!(!is_equal(&Value::Nil, &Value::Bool(false)));
    assert!(!is_equal(&text("1"), &number(1.0)));
    assert!(is_equal(&text("ab"), &text("ab")));
    assert!(is_equal(&number(0.0), &number(-0.0)));
    assert!(!is_equal(&number(f64::NAN), &number(f64::NAN)));
}

#[test]
fn unary_minus() {
    assert_eq!(evaluate("-3"), Ok(number(-3.0)));
    assert_eq!(evaluate("--3"), Ok(number(3.0)));
    assert_eq!(evaluate("-0"), Ok(number(-0.0)));
    assert_eq!(evaluate("-\"a\""), Err(RuntimeError::OperandMustBeNumber { line: 1 }));
    assert_eq!(evaluate("-nil"), Err(RuntimeError::OperandMustBeNumber { line: 1 }));
    assert_eq!(evaluate("-true"), Err(RuntimeError::OperandMustBeNumber { line: 1 }));
}

#[test]
fn operators_applied_directly() {
    assert_eq!(
        apply_binary(&op(TokenType::Plus, "+"), &number(1.0), &number(2.0)),
        Outcome::Ask(Request::Arithmetic(ArithOp::Add, 1f64.to_bits(), 2f64.to_bits()))
    );
    assert_eq!(
        apply_binary(&op(TokenType::Minus, "-"), &number(1.0), &number(2.0)),
        Outcome::Ask(Request::Arithmetic(ArithOp::Subtract, 1f64.to_bits(), 2f64.to_bits()))
    );
    assert_eq!(
        apply_binary(&op(TokenType::Star, "*"), &number(1.0), &number(2.0)),
        Outcome::Ask(Request::Arithmetic(ArithOp::Multiply, 1f64.to_bits(), 2f64.to_bits()))
    );
    assert_eq!(
        apply_binary(&op(TokenType::Slash, "/"), &number(1.0), &number(2.0)),
        Outcome::Ask(Request::Arithmetic(ArithOp::Divide, 1f64.to_bits(), 2f64.to_bits()))
    );
    assert_eq!(
        apply_binary(&op(TokenType::Plus, "+"), &text("a"), &text("b")),
        Outcome::Value(text("ab"))
    );
    assert_eq!(
        apply_binary(&op(TokenType::Star, "*"), &text("a"), &text("b")),
        Outcome::Error(RuntimeError::OperandsMustBeNumbers { line: 7 })
    );
    assert_eq!(
        apply_binary(&op(TokenType::Plus, "+"), &text("a"), &Value::Nil),
        Outcome::Error(RuntimeError::OperandsMustBeNumbersOrStrings { line: 7 })
    );
    assert_eq!(
        apply_binary(&op(TokenType::Less, "<"), &number(1.0), &number(2.0)),
        Outcome::Value(Value::Bool(true))
    );
    assert_eq!(
        apply_binary(&op(TokenType::EqualEqual, "=="), &text("a"), &number(2.0)),
        Outcome::Value(Value::Bool(false))
    );
    assert_eq!(
        apply_binary(&op(TokenType::Comma, ","), &number(1.0), &number(2.0)),
        Outcome::Value(Value::Nil)
    );
    assert_eq!(
        apply_unary(&op(TokenType::Minus, "-"), &number(1.5)),
        Outcome::Value(number(-1.5))
    );
    assert_eq!(
        apply_unary(&op(TokenType::Minus, "-"), &text("a")),
        Outcome::Error(RuntimeError::OperandMustBeNumber { line: 7 })
    );
    assert_eq!(
        apply_unary(&op(TokenType::Bang, "!"), &text("a")),
        Outcome::Value(Value::Bool(false))
    );
    assert_eq!(
        apply_unary(&op(TokenType::Plus, "+"), &number(1.0)),
        Outcome::Value(Value::Nil)
    );
}

#[test]
fn print_renders_each_kind_of_value() {
    assert_eq!(
        prints("print 3; print 2.5; print \"hi\"; print nil; print true; print false; print 1 / 2; print 7 / 2 * 2; print -0.5; print 100 * 100;"),
        vec!["3", "2.5", "hi", "nil", "true", "false", "0.5", "7", "-0.5", "10000"]
    );
}

#[test]
fn print_takes_the_text_of_a_number_from_the_host_and_trims_it() {
    let mut interpreter = Interpreter::new();
    load(&mut interpreter, "print 3;");
    assert_eq!(interpreter.step(Reply::Nothing), Action::Proceed);
    assert_eq!(interpreter.step(Reply::Nothing), Action::Ask(Request::Parse("3".to_owned())));
    assert_eq!(interpreter.step(Reply::Number(3f64.to_bits())), Action::Proceed);
    assert_eq!(interpreter.step(Reply::Nothing), Action::Ask(Request::Format(3f64.to_bits())));
    assert_eq!(
        interpreter.step(Reply::Text("3.0".to_owned())),
        Action::Print("3".to_owned())
    );
    assert_eq!(interpreter.step(Reply::Nothing), Action::Finished);
}

#[test]
fn a_reply_of_the_wrong_kind_is_asked_for_again() {
    let mut interpreter = Interpreter::new();
    load(&mut interpreter, "print 1 + 2;");
    assert_eq!(interpreter.step(Reply::Nothing), Action::Proceed);
    assert_eq!(interpreter.step(Reply::Nothing), Action::Proceed);
    let ask = Action::Ask(Request::Parse("1".to_owned()));
    assert_eq!(interpreter.step(Reply::Nothing), ask);
    assert_eq!(interpreter.step(Reply::Nothing), ask);
    assert_eq!(interpreter.step(Reply::Text("1".to_owned())), ask);
    assert_eq!(interpreter.step(Reply::Number(1f64.to_bits())), Action::Proceed);
    assert_eq!(
        interpreter.step(Reply::Number(5f64.to_bits())),
        Action::Ask(Request::Parse("2".to_owned()))
    );
    assert_eq!(interpreter.step(Reply::Number(2f64.to_bits())), Action::Proceed);
    let sum = Action::Ask(Request::Arithmetic(ArithOp::Add, 1f64.to_bits(), 2f64.to_bits()));
    assert_eq!(interpreter.step(Reply::Nothing), sum);
    assert_eq!(interpreter.step(Reply::Text("3".to_owned())), sum);
    assert_eq!(interpreter.step(Reply::Number(3f64.to_bits())), Action::Proceed);
    let write = Action::Ask(Request::Format(3f64.to_bits()));
    assert_eq!(interpreter.step(Reply::Nothing), write);
    assert_eq!(interpreter.step(Reply::Number(3f64.to_bits())), write);
    assert_eq!(interpreter.step(Reply::Text("3".to_owned())), Action::Print("3".to_owned()));
    assert_eq!(interpreter.step(Reply::Nothing), Action::Finished);
    assert_eq!(interpreter.step(Reply::Number(0)), Action::Finished);
}

#[test]
fn a_new_machine_is_finished() {
    let mut interpreter = Interpreter::new();
    assert!(interpreter.is_finished());
    assert_eq!(interpreter.depth(), 1);
    assert_eq!(interpreter.step(Reply::Nothing), Action::Finished);
    interpreter.interpret(&[]);
    assert!(interpreter.is_finished());
}

#[test]
fn var_without_initializer_is_nil() {
    assert_eq!(prints("var a; print a;"), vec!["nil"]);
}

#[test]
fn var_may_be_defined_again_in_the_same_scope() {
    assert_eq!(prints("var a = 1; var a = 2; print a;"), vec!["2"]);
    assert_eq!(prints("var a = 1; var a = a + 1; print a;"), vec!["2"]);
}

#[test]
fn assignment_is_an_expression() {
    assert_eq!(prints("var a = 1; var b = a = 2; print a; print b;"), vec!["2", "2"]);
    assert_eq!(prints("var a; print a = \"x\";"), vec!["x"]);
}

#[test]
fn assignment_reaches_the_scope_that_defines_the_variable() {
    assert_eq!(prints("var a = 1; { a = 2; } print a;"), vec!["2"]);
    assert_eq!(prints("var a = 1; { var b = 5; { a = b; } } print a;"), vec!["5"]);
    assert_eq!(
        prints("var a = 1; { var a = 2; a = 3; print a; } print a;"),
        vec!["3", "1"]
    );
}

#[test]
fn reading_an_undefined_variable_fails() {
    assert_eq!(
        run("print 1; print y;"),
        (
            vec!["1".to_owned()],
            Some(RuntimeError::UndefinedVariable { name: "y".to_owned(), line: 1 })
        )
    );
    assert_eq!(
        run("{ var y = 1; }\nprint y;").1,
        Some(RuntimeError::UndefinedVariable { name: "y".to_owned(), line: 2 })
    );
}

#[test]
fn error_inside_blocks_leaves_every_block() {
    let mut interpreter = Interpreter::new();
    load(&mut interpreter, "var a = 1; { var b = 2; { var c = 3; a = b + nil; } } print a;");
    let (printed, error) = drive(&mut interpreter);
    assert_eq!(printed, Vec::<String>::new());
    assert_eq!(error, Some(RuntimeError::OperandsMustBeNumbersOrStrings { line: 1 }));
    assert_eq!(interpreter.depth(), 1);
    assert!(interpreter.is_finished());
    assert_eq!(interpreter.variable(&name("a")), Ok(number(1.0)));
    assert!(interpreter.variable(&name("b")).is_err());
    load(&mut interpreter, "print a;");
    assert_eq!(drive(&mut interpreter), (vec!["1".to_owned()], None));
}

#[test]
fn blocks_are_left_when_they_are_done() {
    let mut interpreter = Interpreter::new();
    load(&mut interpreter, "{ { var a = 1; } { } }");
    let mut deepest = 0;
    loop {
        match interpreter.step(Reply::Nothing) {
            Action::Finished => break,
            Action::Ask(Request::Parse(_)) => {
                assert_eq!(interpreter.step(Reply::Number(0)), Action::Proceed);
            }
            _ => {}
        }
        deepest = deepest.max(interpreter.depth());
    }
    assert_eq!(deepest, 3);
    assert_eq!(interpreter.depth(), 1);
}

#[test]
fn if_runs_one_branch() {
    assert_eq!(prints("if (true) print 1; else print 2;"), vec!["1"]);
    assert_eq!(prints("if (false) print 1; else print 2;"), vec!["2"]);
    assert_eq!(prints("if (nil) print 1; print 3;"), vec!["3"]);
    assert_eq!(prints("if (0) print 1; else print 2;"), vec!["1"]);
    assert_eq!(prints("if (\"\") print 1;"), vec!["1"]);
    assert_eq!(prints("if (1 > 2) { print 1; } else { print 2; print 3; }"), vec!["2", "3"]);
}

#[test]
fn while_runs_as_long_as_the_condition_is_true() {
    assert_eq!(prints("while (false) print 1;"), Vec::<String>::new());
    assert_eq!(
        prints("var i = 3; while (i > 0) { print i; i = i - 1; }"),
        vec!["3", "2", "1"]
    );
    assert_eq!(
        prints("var i = 0; while (i < 2) { var j = 0; while (j < 2) { print i * 2 + j; j = j + 1; } i = i + 1; }"),
        vec!["0", "1", "2", "3"]
    );
}

#[test]
fn a_loop_without_end_never_finishes_but_every_step_returns() {
    let mut interpreter = Interpreter::new();
    load(&mut interpreter, "while (true) {}");
    for _ in 0..10_000 {
        assert_eq!(interpreter.step(Reply::Nothing), Action::Proceed);
    }
    assert!(!interpreter.is_finished());
    assert!(interpreter.depth() <= 2);
}

fn logical(left: Expr, type_: TokenType, lexeme: &str, right: Expr) -> Stmt {
    Stmt::Var(
        name("result"),
        Some(Expr::Logical(Box::new(left), Token::new(type_, lexeme, None, 1), Box::new(right))),
    )
}

fn run_tree(statement: Stmt) -> Result<Value, RuntimeError> {
    let mut interpreter = Interpreter::new();
    interpreter.interpret(&[statement]);
    match drive(&mut interpreter) {
        (_, Some(e)) => Err(e),
        (_, None) => Ok(interpreter.variable(&name("result")).unwrap()),
    }
}

fn lit(l: Literal) -> Expr {
    Expr::Literal(l)
}

#[test]
fn or_gives_the_operand_that_decides() {
    let s = |x: &str| lit(Literal::String_(x.to_owned()));
    assert_eq!(run_tree(logical(lit(Literal::Nil), TokenType::Or, "or", s("x"))), Ok(text("x")));
    assert_eq!(run_tree(logical(s("a"), TokenType::Or, "or", s("x"))), Ok(text("a")));
    assert_eq!(
        run_tree(logical(lit(Literal::Bool(false)), TokenType::Or, "or", lit(Literal::Nil))),
        Ok(Value::Nil)
    );
    assert_eq!(
        run_tree(logical(lit(Literal::Number("0".to_owned())), TokenType::Or, "or", s("x"))),
        Ok(number(0.0))
    );
}

#[test]
fn and_gives_the_operand_that_decides() {
    let s = |x: &str| lit(Literal::String_(x.to_owned()));
    assert_eq!(run_tree(logical(lit(Literal::Nil), TokenType::And, "and", s("x"))), Ok(Value::Nil));
    assert_eq!(run_tree(logical(s("a"), TokenType::And, "and", s("x"))), Ok(text("x")));
    assert_eq!(
        run_tree(logical(lit(Literal::Bool(false)), TokenType::And, "and", s("x"))),
        Ok(Value::Bool(false))
    );
    assert_eq!(
        run_tree(logical(lit(Literal::Bool(true)), TokenType::And, "and", lit(Literal::Bool(false)))),
        Ok(Value::Bool(false))
    );
}

#[test]
fn the_right_operand_is_not_evaluated_when_the_left_decides() {
    let missing = Expr::Variable(name("missing"));
    assert_eq!(
        run_tree(logical(lit(Literal::Bool(true)), TokenType::Or, "or", missing.clone())),
        Ok(Value::Bool(true))
    );
    assert_eq!(
        run_tree(logical(lit(Literal::Nil), TokenType::And, "and", missing.clone())),
        Ok(Value::Nil)
    );
    assert_eq!(
        run_tree(logical(lit(Literal::Nil), TokenType::Or, "or", missing.clone())),
        Err(RuntimeError::UndefinedVariable { name: "missing".to_owned(), line: 1 })
    );
    assert_eq!(
        run_tree(logical(lit(Literal::Bool(true)), TokenType::And, "and", missing)),
        Err(RuntimeError::UndefinedVariable { name: "missing".to_owned(), line: 1 })
    );
}

#[test]
fn grouping_evaluates_its_inside() {
    assert_eq!(evaluate("((\"a\"))"), Ok(text("a")));
    assert_eq!(evaluate("2 * (3 + 4)"), Ok(number(14.0)));
}

#[test]
fn operands_are_evaluated_left_to_right() {
    assert_eq!(
        run("var a = 1; print (a = 2) + a;").0,
        vec!["4"]
    );
    assert_eq!(
        run("print x + y;").1,
        Some(RuntimeError::UndefinedVariable { name: "x".to_owned(), line: 1 })
    );
}

#[test]
fn error_carries_the_line_of_the_operator() {
    assert_eq!(
        run("print 1;\nprint 2 *\n\"a\";").1,
        Some(RuntimeError::OperandsMustBeNumbers { line: 2 })
    );
    assert_eq!(
        run("\n\nprint -\"a\";").1,
        Some(RuntimeError::OperandMustBeNumber { line: 3 })
    );
}

#[test]
fn error_messages() {
    assert_eq!(
        RuntimeError::OperandMustBeNumber { line: 3 }.message(),
        "Operand must be a number."
    );
    assert_eq!(
        RuntimeError::OperandsMustBeNumbers { line: 3 }.message(),
        "Operands must be numbers."
    );
    assert_eq!(
        RuntimeError::OperandsMustBeNumbersOrStrings { line: 3 }.message(),
        "Operands must be two numbers or two strings."
    );
    let undefined = RuntimeError::UndefinedVariable { name: "abc".to_owned(), line: 9 };
    assert_eq!(undefined.message(), "Undefined variable 'abc'.");
    assert_eq!(undefined.line(), 9);
    assert_eq!(RuntimeError::OperandMustBeNumber { line: 3 }.line(), 3);
}

#[test]
fn source_with_errors_is_not_run() {
    let mut interpreter = Interpreter::new();
    let mut reporter = Reporter::new();
    assert_eq!(
        rox::run("print 1; print ; @", &mut interpreter, &mut reporter),
        Loaded::Rejected
    );
    assert_eq!(reporter.count(), 2);
    assert_eq!(reporter.diagnostics()[0].message, "Unexpected character");
    assert_eq!(reporter.diagnostics()[1].message, "Expect expression");
    assert!(interpreter.is_finished());
    assert_eq!(drive(&mut interpreter), (vec![], None));
}

#[test]
fn source_is_not_run_while_an_earlier_error_is_on_record() {
    let mut interpreter = Interpreter::new();
    let mut reporter = Reporter::new();
    rox::error(&mut reporter, 1, "earlier");
    assert_eq!(rox::run("print 1;", &mut interpreter, &mut reporter), Loaded::Rejected);
    assert!(interpreter.is_finished());
    rox::set_had_error(&mut reporter, false);
    assert_eq!(rox::run("print 1;", &mut interpreter, &mut reporter), Loaded::Ready);
    assert_eq!(drive(&mut interpreter), (vec!["1".to_owned()], None));
}

#[test]
fn variables_live_on_between_sources() {
    let mut interpreter = Interpreter::new();
    load(&mut interpreter, "var a = 41;");
    assert_eq!(drive(&mut interpreter), (vec![], None));
    load(&mut interpreter, "a = a + 1; print a;");
    assert_eq!(drive(&mut interpreter), (vec!["42".to_owned()], None));
}

#[test]
fn statements_given_later_run_first() {
    let mut interpreter = Interpreter::new();
    load(&mut interpreter, "print \"second\";");
    load(&mut interpreter, "print \"first\";");
    assert_eq!(
        drive(&mut interpreter),
        (vec!["first".to_owned(), "second".to_owned()], None)
    );
}
