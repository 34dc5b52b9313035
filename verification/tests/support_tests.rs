use rox::environment::Environment;
use rox::errors::RuntimeError;
use rox::number::{equal, less, less_equal, nan, negate};
use rox::report::{decimal, Diagnostic, Reporter};
use rox::tokens::{Literal, Token, TokenType};
use rox::value::{trim, Value};

fn samples() -> Vec<f64> {
    vec![
        0.0,
        -0.0,
        1.0,
        -1.0,
        1.5,
        -1.5,
        2.0,
        0.1,
        -0.1,
        1e300,
        -1e300,
        f64::MAX,
        f64::MIN,
        f64::MIN_POSITIVE,
        -f64::MIN_POSITIVE,
        5e-324,
        -5e-324,
        f64::EPSILON,
        f64::INFINITY,
        f64::NEG_INFINITY,
        f64::NAN,
        -f64::NAN,
        f64::from_bits(0x7ff0_0000_0000_0001),
        f64::from_bits(0xfff8_0000_0000_0000),
        f64::from_bits(0x7fff_ffff_ffff_ffff),
    ]
}

#[test]
fn order_on_bit_patterns_is_the_order_of_doubles() {
    for a in samples() {
        for b in samples() {
            assert_eq!(less(a.to_bits(), b.to_bits()), a < b, "{} < {}", a, b);
            assert_eq!(less_equal(a.to_bits(), b.to_bits()), a <= b, "{} <= {}", a, b);
            assert_eq!(less(b.to_bits(), a.to_bits()), a > b, "{} > {}", a, b);
            assert_eq!(less_equal(b.to_bits(), a.to_bits()), a >= b, "{} >= {}", a, b);
        }
    }
}

#[test]
fn equality_on_bit_patterns_is_the_equality_of_doubles() {
    for a in samples() {
        for b in samples() {
            assert_eq!(equal(a.to_bits(), b.to_bits()), a == b, "{} == {}", a, b);
        }
    }
}

#[test]
fn negation_on_bit_patterns_is_the_negation_of_doubles() {
    for a in samples() {
        assert_eq!(negate(a.to_bits()), (-a).to_bits(), "-{}", a);
        assert_eq!(negate(negate(a.to_bits())), a.to_bits());
    }
    assert_eq!(negate(0), 0x8000_0000_0000_0000);
    assert_eq!(negate(1f64.to_bits()), (-1f64).to_bits());
}

#[test]
fn no_number_is_told_from_numbers() {
    for a in samples() {
        assert_eq!(nan(a.to_bits()), a.is_nan(), "{}", a);
    }
    assert!(!nan(0x7ff0_0000_0000_0000));
    assert!(nan(0x7ff0_0000_0000_0001));
    assert!(!nan(0xfff0_0000_0000_0000));
    assert!(nan(0xffff_ffff_ffff_ffff));
}

#[test]
fn value_of_a_literal() {
    assert_eq!(
        Value::from_literal(Literal::String_("s".to_owned())),
        Ok(Value::String_("s".to_owned()))
    );
    assert_eq!(Value::from_literal(Literal::Bool(true)), Ok(Value::Bool(true)));
    assert_eq!(Value::from_literal(Literal::Bool(false)), Ok(Value::Bool(false)));
    assert_eq!(Value::from_literal(Literal::Nil), Ok(Value::Nil));
    assert_eq!(
        Value::from_literal(Literal::Number("12.5".to_owned())),
        Err("12.5".to_owned())
    );
}

#[test]
fn rendering_of_values() {
    assert_eq!(Value::String_("a b".to_owned()).render("unused"), "a b");
    assert_eq!(Value::String_(String::new()).render(""), "");
    assert_eq!(Value::Bool(true).render(""), "true");
    assert_eq!(Value::Bool(false).render(""), "false");
    assert_eq!(Value::Nil.render("x"), "nil");
    assert_eq!(Value::Number(3f64.to_bits()).render("3"), "3");
    assert_eq!(Value::Number(3f64.to_bits()).render("3.0"), "3");
    assert_eq!(Value::Number(2.5f64.to_bits()).render("2.5"), "2.5");
    assert_eq!(Value::Number(0).render(&0.25f64.to_string()), "0.25");
}

#[test]
fn trimming_removes_one_trailing_point_zero() {
    assert_eq!(trim("3.0"), "3");
    assert_eq!(trim("10.0"), "10");
    assert_eq!(trim("3.00"), "3.00");
    assert_eq!(trim("3.0.0"), "3.0");
    assert_eq!(trim("30"), "30");
    assert_eq!(trim(".0"), "");
    assert_eq!(trim("0"), "0");
    assert_eq!(trim(""), "");
    assert_eq!(trim("inf"), "inf");
    assert_eq!(trim("-1.0"), "-1");
}

#[test]
fn values_are_cloned_and_compared_by_content() {
    let v = Value::String_("x".to_owned());
    assert_eq!(v.clone(), v);
    assert_ne!(Value::Nil, Value::Bool(false));
    assert_ne!(Value::Number(0), Value::Number(1));
}

#[test]
fn token_is_built_from_its_parts() {
    let t = Token::new(TokenType::String_, "\"a\"", Some(Literal::String_("a".to_owned())), 4);
    assert_eq!(t.type_, TokenType::String_);
    assert_eq!(t.lexeme, "\"a\"");
    assert_eq!(t.literal, Some(Literal::String_("a".to_owned())));
    assert_eq!(t.line, 4);
    assert_eq!(t.clone(), t);
}

fn entry(line: usize, location: &str, message: &str) -> Diagnostic {
    Diagnostic { line, location: location.to_owned(), message: message.to_owned() }
}

#[test]
fn a_new_reporter_has_seen_nothing() {
    let reporter = Reporter::new();
    assert!(!rox::had_error(&reporter));
    assert_eq!(reporter.count(), 0);
    assert_eq!(reporter.diagnostics(), vec![]);
}

#[test]
fn error_records_line_and_message_and_raises_the_flag() {
    let mut reporter = Reporter::new();
    rox::error(&mut reporter, 3, "Unexpected character");
    assert!(rox::had_error(&reporter));
    assert_eq!(reporter.diagnostics(), vec![entry(3, "", "Unexpected character")]);
}

#[test]
fn error_at_token_says_where() {
    let mut reporter = Reporter::new();
    let end = Token::new(TokenType::Eof, "", None, 9);
    let plus = Token::new(TokenType::Plus, "+", None, 2);
    let word = Token::new(TokenType::Identifier, "abc", None, 5);
    rox::error_at_token(&mut reporter, &end, "first");
    rox::error_at_token(&mut reporter, &plus, "second");
    rox::error_at_token(&mut reporter, &word, "third");
    assert_eq!(
        reporter.diagnostics(),
        vec![
            entry(9, " at end", "first"),
            entry(2, " at '+'", "second"),
            entry(5, " at 'abc'", "third"),
        ]
    );
    assert_eq!(reporter.count(), 3);
}

#[test]
fn report_keeps_the_order() {
    let mut reporter = Reporter::new();
    rox::report(&mut reporter, 1, " here", "a");
    rox::report(&mut reporter, 2, "", "b");
    assert_eq!(reporter.diagnostics(), vec![entry(1, " here", "a"), entry(2, "", "b")]);
}

#[test]
fn the_flag_can_be_cleared_and_set() {
    let mut reporter = Reporter::new();
    rox::error(&mut reporter, 1, "m");
    rox::set_had_error(&mut reporter, false);
    assert!(!rox::had_error(&reporter));
    assert_eq!(reporter.count(), 1);
    rox::set_had_error(&mut reporter, true);
    assert!(rox::had_error(&reporter));
    rox::set_had_error(&mut reporter, false);
    rox::error(&mut reporter, 2, "n");
    assert!(rox::had_error(&reporter));
    assert_eq!(reporter.count(), 2);
}

fn name(text: &str, line: usize) -> Token {
    Token::new(TokenType::Identifier, text, None, line)
}

fn undefined(text: &str, line: usize) -> RuntimeError {
    RuntimeError::UndefinedVariable { name: text.to_owned(), line }
}

#[test]
fn define_then_get() {
    let mut env = Environment::new();
    assert_eq!(env.depth(), 1);
    env.define("a".to_owned(), Value::Number(1));
    env.define("b".to_owned(), Value::Nil);
    assert_eq!(env.get(&name("a", 1)), Ok(Value::Number(1)));
    assert_eq!(env.get(&name("b", 1)), Ok(Value::Nil));
    assert_eq!(env.get(&name("c", 4)), Err(undefined("c", 4)));
}

#[test]
fn define_overwrites_in_the_same_scope() {
    let mut env = Environment::new();
    env.define("a".to_owned(), Value::Number(1));
    env.define("b".to_owned(), Value::Number(7));
    env.define("a".to_owned(), Value::String_("x".to_owned()));
    assert_eq!(env.get(&name("a", 1)), Ok(Value::String_("x".to_owned())));
    assert_eq!(env.get(&name("b", 1)), Ok(Value::Number(7)));
}

#[test]
fn inner_scope_shadows_and_is_left() {
    let mut outer = Environment::new();
    outer.define("a".to_owned(), Value::Number(1));
    outer.define("b".to_owned(), Value::Number(2));
    let mut inner = Environment::new_from(outer);
    assert_eq!(inner.depth(), 2);
    assert_eq!(inner.get(&name("a", 1)), Ok(Value::Number(1)));
    inner.define("a".to_owned(), Value::Number(10));
    assert_eq!(inner.get(&name("a", 1)), Ok(Value::Number(10)));
    assert_eq!(inner.get(&name("b", 1)), Ok(Value::Number(2)));
    let outer = inner.enclosing();
    assert_eq!(outer.depth(), 1);
    assert_eq!(outer.get(&name("a", 1)), Ok(Value::Number(1)));
}

#[test]
fn assign_changes_the_innermost_scope_that_defines_the_name() {
    let mut env = Environment::new();
    env.define("a".to_owned(), Value::Number(1));
    env.define("b".to_owned(), Value::Number(2));
    env.enter();
    env.define("a".to_owned(), Value::Number(10));
    env.enter();
    assert_eq!(env.assign(name("a", 1), Value::Number(11)), Ok(()));
    assert_eq!(env.assign(name("b", 1), Value::Number(3)), Ok(()));
    assert_eq!(env.get(&name("a", 1)), Ok(Value::Number(11)));
    assert_eq!(env.get(&name("b", 1)), Ok(Value::Number(3)));
    env.leave();
    assert_eq!(env.get(&name("a", 1)), Ok(Value::Number(11)));
    env.leave();
    assert_eq!(env.get(&name("a", 1)), Ok(Value::Number(1)));
    assert_eq!(env.get(&name("b", 1)), Ok(Value::Number(3)));
}

#[test]
fn assign_never_defines() {
    let mut env = Environment::new();
    env.enter();
    assert_eq!(env.assign(name("x", 6), Value::Number(1)), Err(undefined("x", 6)));
    assert_eq!(env.get(&name("x", 2)), Err(undefined("x", 2)));
    env.leave();
    assert_eq!(env.get(&name("x", 3)), Err(undefined("x", 3)));
}

#[test]
fn the_global_scope_is_never_left() {
    let mut env = Environment::new();
    env.define("a".to_owned(), Value::Number(1));
    env.leave();
    env.leave();
    assert_eq!(env.depth(), 1);
    assert_eq!(env.get(&name("a", 1)), Ok(Value::Number(1)));
    let env = env.enclosing();
    assert_eq!(env.depth(), 1);
    assert_eq!(env.get(&name("a", 1)), Ok(Value::Number(1)));
}

#[test]
fn unwind_leaves_every_scope_but_the_global_one() {
    let mut env = Environment::new();
    env.define("a".to_owned(), Value::Number(1));
    env.enter();
    env.define("b".to_owned(), Value::Number(2));
    env.enter();
    env.enter();
    assert_eq!(env.depth(), 4);
    env.unwind();
    assert_eq!(env.depth(), 1);
    assert_eq!(env.get(&name("a", 1)), Ok(Value::Number(1)));
    assert_eq!(env.get(&name("b", 1)), Err(undefined("b", 1)));
}

#[test]
fn names_are_compared_as_a_whole() {
    let mut env = Environment::new();
    env.define("ab".to_owned(), Value::Number(1));
    assert!(env.get(&name("a", 1)).is_err());
    assert!(env.get(&name("abc", 1)).is_err());
    assert!(env.get(&name("", 1)).is_err());
    assert_eq!(env.get(&name("ab", 1)), Ok(Value::Number(1)));
}

#[test]
fn decimal_numerals() {
    assert_eq!(decimal(0), "0");
    assert_eq!(decimal(7), "7");
    assert_eq!(decimal(9), "9");
    assert_eq!(decimal(10), "10");
    assert_eq!(decimal(42), "42");
    assert_eq!(decimal(100), "100");
    assert_eq!(decimal(1234567890), "1234567890");
    assert_eq!(decimal(usize::MAX), usize::MAX.to_string());
    for n in 0..2000 {
        assert_eq!(decimal(n), n.to_string());
    }
}

#[test]
fn a_diagnostic_is_shown_as_one_line() {
    assert_eq!(
        entry(3, "", "Unexpected character").render(),
        "[line 3] Error: Unexpected character"
    );
    assert_eq!(
        entry(12, " at end", "Expect expression").render(),
        "[line 12] Error at end: Expect expression"
    );
    assert_eq!(
        entry(1, " at 'x'", "Expect ';' after value.").render(),
        "[line 1] Error at 'x': Expect ';' after value."
    );
}

#[test]
fn a_runtime_error_is_shown_as_a_diagnostic_without_location() {
    assert_eq!(undefined("abc", 9).diagnostic(), entry(9, "", "Undefined variable 'abc'."));
    assert_eq!(
        RuntimeError::OperandsMustBeNumbers { line: 2 }.diagnostic().render(),
        "[line 2] Error: Operands must be numbers."
    );
}
