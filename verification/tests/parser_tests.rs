use rox::ast::{Expr, Stmt};
use rox::parser::Parser;
use rox::report::{Diagnostic, Reporter};
use rox::scanner::Scanner;
use rox::tokens::{Literal, Token, TokenType};

fn parse(source: &str) -> (Vec<Stmt>, Vec<Diagnostic>) {
    let mut reporter = Reporter::new();
    let mut scanner = Scanner::new(source.to_owned());
    let tokens = scanner.scan_tokens(&mut reporter);
    assert_eq!(reporter.count(), 0);
    let mut parser = Parser::new(tokens);
    let statements = parser.parse(&mut reporter);
    assert_eq!(rox::had_error(&reporter), reporter.count() > 0);
    (statements, reporter.diagnostics())
}

fn parse_clean(source: &str) -> Vec<Stmt> {
    let (statements, found) = parse(source);
    assert_eq!(found, vec![]);
    statements
}

fn tok(type_: TokenType, lexeme: &str) -> Token {
    Token::new(type_, lexeme, None, 1)
}

fn num(text: &str) -> Expr {
    Expr::Literal(Literal::Number(text.to_owned()))
}

fn var(name: &str) -> Expr {
    Expr::Variable(tok(TokenType::Identifier, name))
}

fn bin(left: Expr, type_: TokenType, lexeme: &str, right: Expr) -> Expr {
    Expr::Binary(Box::new(left), tok(type_, lexeme), Box::new(right))
}

fn complaint(line: usize, location: &str, message: &str) -> Diagnostic {
    Diagnostic { line, location: location.to_owned(), message: message.to_owned() }
}

#[test]
fn empty_program_has_no_statement_and_no_error() {
    assert_eq!(parse_clean(""), vec![]);
    assert_eq!(parse_clean("// only a comment\n"), vec![]);
}

#[test]
fn literals_are_primaries() {
    assert_eq!(
        parse_clean("1; \"s\"; true; false; nil;"),
        vec![
            Stmt::Expression(num("1")),
            Stmt::Expression(Expr::Literal(Literal::String_("s".to_owned()))),
            Stmt::Expression(Expr::Literal(Literal::Bool(true))),
            Stmt::Expression(Expr::Literal(Literal::Bool(false))),
            Stmt::Expression(Expr::Literal(Literal::Nil)),
        ]
    );
}

#[test]
fn factors_bind_tighter_than_terms() {
    assert_eq!(
        parse_clean("1 + 2 * 3;"),
        vec![Stmt::Expression(bin(
            num("1"),
            TokenType::Plus,
            "+",
            bin(num("2"), TokenType::Star, "*", num("3"))
        ))]
    );
    assert_eq!(
        parse_clean("1 * 2 + 3;"),
        vec![Stmt::Expression(bin(
            bin(num("1"), TokenType::Star, "*", num("2")),
            TokenType::Plus,
            "+",
            num("3")
        ))]
    );
}

#[test]
fn binary_operators_join_from_the_left() {
    assert_eq!(
        parse_clean("1 - 2 - 3;"),
        vec![Stmt::Expression(bin(
            bin(num("1"), TokenType::Minus, "-", num("2")),
            TokenType::Minus,
            "-",
            num("3")
        ))]
    );
    assert_eq!(
        parse_clean("8 / 4 / 2;"),
        vec![Stmt::Expression(bin(
            bin(num("8"), TokenType::Slash, "/", num("4")),
            TokenType::Slash,
            "/",
            num("2")
        ))]
    );
}

#[test]
fn the_levels_are_equality_comparison_term_factor_unary() {
    // a == b < c + d * -e
    let expected = bin(
        var("a"),
        TokenType::EqualEqual,
        "==",
        bin(
            var("b"),
            TokenType::Less,
            "<",
            bin(
                var("c"),
                TokenType::Plus,
                "+",
                bin(
                    var("d"),
                    TokenType::Star,
                    "*",
                    Expr::Unary(tok(TokenType::Minus, "-"), Box::new(var("e"))),
                ),
            ),
        ),
    );
    assert_eq!(parse_clean("a == b < c + d * -e;"), vec![Stmt::Expression(expected)]);
}

#[test]
fn every_comparison_and_equality_operator_is_parsed() {
    for (lexeme, type_) in [
        ("<", TokenType::Less),
        ("<=", TokenType::LessEqual),
        (">", TokenType::Greater),
        (">=", TokenType::GreaterEqual),
        ("==", TokenType::EqualEqual),
        ("!=", TokenType::BangEqual),
    ] {
        let source = format!("a {} b;", lexeme);
        assert_eq!(
            parse_clean(&source),
            vec![Stmt::Expression(bin(var("a"), type_, lexeme, var("b")))]
        );
    }
}

#[test]
fn unary_operators_nest() {
    assert_eq!(
        parse_clean("-!x;"),
        vec![Stmt::Expression(Expr::Unary(
            tok(TokenType::Minus, "-"),
            Box::new(Expr::Unary(tok(TokenType::Bang, "!"), Box::new(var("x"))))
        ))]
    );
}

#[test]
fn parentheses_group() {
    assert_eq!(
        parse_clean("(1 + 2) * 3;"),
        vec![Stmt::Expression(bin(
            Expr::Grouping(Box::new(bin(num("1"), TokenType::Plus, "+", num("2")))),
            TokenType::Star,
            "*",
            num("3")
        ))]
    );
}

#[test]
fn assignment_joins_from_the_right() {
    assert_eq!(
        parse_clean("a = b = 1;"),
        vec![Stmt::Expression(Expr::Assign(
            tok(TokenType::Identifier, "a"),
            Box::new(Expr::Assign(tok(TokenType::Identifier, "b"), Box::new(num("1"))))
        ))]
    );
}

#[test]
fn assignment_takes_a_whole_equality_as_value() {
    assert_eq!(
        parse_clean("a = 1 == 2;"),
        vec![Stmt::Expression(Expr::Assign(
            tok(TokenType::Identifier, "a"),
            Box::new(bin(num("1"), TokenType::EqualEqual, "==", num("2")))
        ))]
    );
}

#[test]
fn invalid_assignment_target_is_reported_and_parsing_goes_on() {
    let (statements, found) = parse("1 = 2; print 3;");
    assert_eq!(
        statements,
        vec![Stmt::Expression(num("1")), Stmt::Print(num("3"))]
    );
    assert_eq!(found, vec![complaint(1, "", "Invalid assignment target")]);
}

#[test]
fn a_grouped_variable_is_no_assignment_target() {
    let (statements, found) = parse("(a) = 2;");
    assert_eq!(
        statements,
        vec![Stmt::Expression(Expr::Grouping(Box::new(var("a"))))]
    );
    assert_eq!(found, vec![complaint(1, "", "Invalid assignment target")]);
}

#[test]
fn invalid_assignment_target_is_reported_at_the_line_of_the_equals_sign() {
    let (_, found) = parse("1\n=\n2;");
    assert_eq!(found, vec![complaint(2, "", "Invalid assignment target")]);
}

#[test]
fn var_declaration_with_and_without_initializer() {
    assert_eq!(
        parse_clean("var a; var b = 1 + 2;"),
        vec![
            Stmt::Var(tok(TokenType::Identifier, "a"), None),
            Stmt::Var(
                tok(TokenType::Identifier, "b"),
                Some(bin(num("1"), TokenType::Plus, "+", num("2")))
            ),
        ]
    );
}

#[test]
fn print_statement() {
    assert_eq!(parse_clean("print x;"), vec![Stmt::Print(var("x"))]);
}

#[test]
fn block_holds_its_declarations() {
    assert_eq!(
        parse_clean("{ var a = 1; print a; }"),
        vec![Stmt::Block(vec![
            Stmt::Var(tok(TokenType::Identifier, "a"), Some(num("1"))),
            Stmt::Print(var("a")),
        ])]
    );
}

#[test]
fn block_may_be_empty_and_may_nest() {
    assert_eq!(parse_clean("{}"), vec![Stmt::Block(vec![])]);
    assert_eq!(
        parse_clean("{ { } print 1; { { print 2; } } }"),
        vec![Stmt::Block(vec![
            Stmt::Block(vec![]),
            Stmt::Print(num("1")),
            Stmt::Block(vec![Stmt::Block(vec![Stmt::Print(num("2"))])]),
        ])]
    );
}

#[test]
fn if_with_and_without_else() {
    assert_eq!(
        parse_clean("if (a) print 1;"),
        vec![Stmt::If(var("a"), Box::new(Stmt::Print(num("1"))), Box::new(None))]
    );
    assert_eq!(
        parse_clean("if (a) print 1; else print 2;"),
        vec![Stmt::If(
            var("a"),
            Box::new(Stmt::Print(num("1"))),
            Box::new(Some(Stmt::Print(num("2"))))
        )]
    );
}

#[test]
fn else_belongs_to_the_nearest_if() {
    assert_eq!(
        parse_clean("if (a) if (b) print 1; else print 2;"),
        vec![Stmt::If(
            var("a"),
            Box::new(Stmt::If(
                var("b"),
                Box::new(Stmt::Print(num("1"))),
                Box::new(Some(Stmt::Print(num("2"))))
            )),
            Box::new(None)
        )]
    );
}

#[test]
fn while_statement() {
    assert_eq!(
        parse_clean("while (i < 5) { i = i + 1; }"),
        vec![Stmt::While(
            bin(var("i"), TokenType::Less, "<", num("5")),
            Box::new(Stmt::Block(vec![Stmt::Expression(Expr::Assign(
                tok(TokenType::Identifier, "i"),
                Box::new(bin(var("i"), TokenType::Plus, "+", num("1")))
            ))]))
        )]
    );
}

#[test]
fn var_is_no_statement_inside_if() {
    let (statements, found) = parse("if (a) var b = 1;");
    assert_eq!(statements, vec![]);
    assert_eq!(found, vec![complaint(1, " at 'var'", "Expect expression")]);
}

#[test]
fn logical_operators_are_not_part_of_the_grammar() {
    let (statements, found) = parse("a or b;");
    assert_eq!(statements, vec![]);
    assert_eq!(found, vec![complaint(1, " at 'or'", "Expect ';' after expression.")]);
}

#[test]
fn missing_semicolon_is_reported_at_the_end() {
    let (statements, found) = parse("print 1");
    assert_eq!(statements, vec![]);
    assert_eq!(found, vec![complaint(1, " at end", "Expect ';' after value.")]);
    let (_, found) = parse("1 + 2");
    assert_eq!(found, vec![complaint(1, " at end", "Expect ';' after expression.")]);
    let (_, found) = parse("var a = 1");
    assert_eq!(
        found,
        vec![complaint(1, " at end", "Expect ';' after variable declaration.")]
    );
    let (_, found) = parse("var a");
    assert_eq!(
        found,
        vec![complaint(1, " at end", "Expect ';' after variable declaration.")]
    );
}

#[test]
fn missing_expression_is_reported_at_the_token() {
    let (statements, found) = parse("print ;");
    assert_eq!(statements, vec![]);
    assert_eq!(found, vec![complaint(1, " at ';'", "Expect expression")]);
    let (_, found) = parse("1 +;");
    assert_eq!(found, vec![complaint(1, " at ';'", "Expect expression")]);
    let (_, found) = parse("a = ;");
    assert_eq!(found, vec![complaint(1, " at ';'", "Expect expression")]);
}

#[test]
fn missing_variable_name_is_reported() {
    let (statements, found) = parse("var 1 = 2;");
    assert_eq!(statements, vec![]);
    assert_eq!(found, vec![complaint(1, " at '1'", "Expect variable name.")]);
}

#[test]
fn broken_initializer_is_reported_once() {
    let (statements, found) = parse("var a = ; print 1;");
    assert_eq!(statements, vec![Stmt::Print(num("1"))]);
    assert_eq!(found, vec![complaint(1, " at ';'", "Expect expression")]);
}

#[test]
fn missing_parenthesis_is_reported() {
    let (_, found) = parse("(1 + 2;");
    assert_eq!(found, vec![complaint(1, " at ';'", "Expect `)` after expression")]);
    let (_, found) = parse("if a) print 1;");
    assert_eq!(found, vec![complaint(1, " at 'a'", "Expect '(' after 'if'.")]);
    let (_, found) = parse("if (a print 1;");
    assert_eq!(found, vec![complaint(1, " at 'print'", "Expect ')' after if condition.")]);
    let (_, found) = parse("while a) print 1;");
    assert_eq!(found, vec![complaint(1, " at 'a'", "Expect '(' after 'while'.")]);
    let (_, found) = parse("while (a print 1;");
    assert_eq!(found, vec![complaint(1, " at 'print'", "Expect ')' after condition.")]);
}

#[test]
fn missing_brace_is_reported_at_the_end() {
    let (statements, found) = parse("{ print 1;");
    assert_eq!(statements, vec![]);
    assert_eq!(found, vec![complaint(1, " at end", "Expect '}' after block.")]);
}

#[test]
fn a_stray_closing_brace_is_reported() {
    let (statements, found) = parse("} print 1;");
    assert_eq!(statements, vec![Stmt::Print(num("1"))]);
    assert_eq!(found, vec![complaint(1, " at '}'", "Expect expression")]);
}

#[test]
fn two_broken_statements_give_two_diagnostics() {
    let (statements, found) = parse("var = 1; print ; print 3;");
    assert_eq!(statements, vec![Stmt::Print(num("3"))]);
    assert_eq!(
        found,
        vec![
            complaint(1, " at '='", "Expect variable name."),
            complaint(1, " at ';'", "Expect expression"),
        ]
    );
}

#[test]
fn two_broken_statements_on_two_lines() {
    let (statements, found) = parse("1 +;\n(2;\nprint 4;");
    assert_eq!(statements, vec![Stmt::Print(num("4"))]);
    assert_eq!(
        found,
        vec![
            complaint(1, " at ';'", "Expect expression"),
            complaint(2, " at ';'", "Expect `)` after expression"),
        ]
    );
}

#[test]
fn recovery_stops_before_a_token_that_begins_a_statement() {
    let (statements, found) = parse("1 2 3 print 4;");
    assert_eq!(statements, vec![Stmt::Print(num("4"))]);
    assert_eq!(found, vec![complaint(1, " at '2'", "Expect ';' after expression.")]);
}

#[test]
fn recovery_stops_after_a_semicolon() {
    let (statements, found) = parse("+ 1 2; 3;");
    assert_eq!(statements, vec![Stmt::Expression(num("3"))]);
    assert_eq!(found, vec![complaint(1, " at '+'", "Expect expression")]);
}

#[test]
fn recovery_inside_a_block_keeps_the_block() {
    let (statements, found) = parse("{ print ; print 2; }");
    assert_eq!(statements, vec![Stmt::Block(vec![Stmt::Print(num("2"))])]);
    assert_eq!(found, vec![complaint(1, " at ';'", "Expect expression")]);
}

#[test]
fn recovery_to_the_end() {
    let (statements, found) = parse("print 1; 2 3 4");
    assert_eq!(statements, vec![Stmt::Print(num("1"))]);
    assert_eq!(found, vec![complaint(1, " at '3'", "Expect ';' after expression.")]);
}

#[test]
fn tokens_on_later_lines_keep_their_lines() {
    let statements = parse_clean("\n\nprint x;");
    assert_eq!(
        statements,
        vec![Stmt::Print(Expr::Variable(Token::new(TokenType::Identifier, "x", None, 3)))]
    );
}

#[test]
fn a_number_token_without_literal_is_nil() {
    let tokens = vec![
        Token::new(TokenType::Number, "1", None, 1),
        Token::new(TokenType::Semicolon, ";", None, 1),
        Token::new(TokenType::Eof, "", None, 1),
    ];
    let mut reporter = Reporter::new();
    let mut parser = Parser::new(tokens);
    assert_eq!(
        parser.parse(&mut reporter),
        vec![Stmt::Expression(Expr::Literal(Literal::Nil))]
    );
    assert_eq!(reporter.count(), 0);
}

#[test]
fn parsing_stops_at_the_first_end_marker() {
    let tokens = vec![
        Token::new(TokenType::Eof, "", None, 1),
        Token::new(TokenType::Print, "print", None, 1),
        Token::new(TokenType::Eof, "", None, 1),
    ];
    let mut reporter = Reporter::new();
    let mut parser = Parser::new(tokens);
    assert_eq!(parser.parse(&mut reporter), vec![]);
    assert_eq!(reporter.count(), 0);
}

#[test]
fn parsing_the_same_tokens_twice_gives_the_same_tree() {
    let source = "var i = 0; while (i < 3) { print i; i = i + 1; } if (i == 3) print \"done\";";
    assert_eq!(parse_clean(source), parse_clean(source));
}
