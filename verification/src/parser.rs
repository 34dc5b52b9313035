//! The parser: recursive descent from tokens to statements, with recovery
//! at statement boundaries.

use crate::ast::{expr_option_view, stmts_view, Expr, ExprView, Stmt, StmtView};
use crate::report::{error, error_at_token, location_of, DiagnosticView, Reporter};
use crate::tokens::{tokens_view, Literal, LiteralView, Token, TokenType, TokenView};
use vstd::prelude::*;

verus! {

/// What parsing one construct gives: the construct, or `None` where the
/// tokens do not spell one; where the next construct starts; and the
/// errors found, in order.
pub struct Parsed<T> {
    pub value: Option<T>,
    pub next: int,
    pub errors: Seq<DiagnosticView>,
}

/// Whether no token is left at `pos` but the end marker.
pub open spec fn at_end(ts: Seq<TokenView>, pos: int) -> bool {
    !(0 <= pos < ts.len()) || ts[pos].type_ == TokenType::Eof
}

/// Whether the token at `pos` is of kind `type_` (and not the end marker).
pub open spec fn check(ts: Seq<TokenView>, pos: int, type_: TokenType) -> bool {
    !at_end(ts, pos) && ts[pos].type_ == type_
}

/// How many tokens stand at `pos` and after it.
pub open spec fn remaining(ts: Seq<TokenView>, pos: int) -> nat {
    if pos < ts.len() {
        (ts.len() - pos) as nat
    } else {
        0
    }
}

/// `next`, but no less than `floor`. Parsing never moves backwards (the
/// parser's own contracts say so), hence this is `next` wherever it is
/// used; it is written out so that the definitions below end by
/// themselves.
pub open spec fn onward(next: int, floor: int) -> int {
    if next < floor {
        floor
    } else {
        next
    }
}

/// The error `message` at the token at `pos`.
pub open spec fn complaint(ts: Seq<TokenView>, pos: int, message: Seq<char>) -> DiagnosticView {
    DiagnosticView { line: ts[pos].line, location: location_of(ts[pos]), message }
}

/// No construct: the token at `pos` is not what was expected.
pub open spec fn failure<T>(ts: Seq<TokenView>, pos: int, message: Seq<char>) -> Parsed<T> {
    Parsed { value: None, next: pos, errors: seq![complaint(ts, pos, message)] }
}

/// A construct found without error, the next one starting at `next`.
pub open spec fn success<T>(value: T, next: int) -> Parsed<T> {
    Parsed { value: Some(value), next, errors: Seq::<DiagnosticView>::empty() }
}

/// The result `second` of what follows a part that was parsed with the
/// errors `first`.
pub open spec fn after<T>(first: Seq<DiagnosticView>, second: Parsed<T>) -> Parsed<T> {
    Parsed { errors: first + second.errors, ..second }
}

/// The token at `pos` if it is of kind `type_`, else the error `message`.
pub open spec fn consume(ts: Seq<TokenView>, pos: int, type_: TokenType, message: Seq<char>)
    -> Parsed<TokenView> {
    if check(ts, pos, type_) {
        success(ts[pos], pos + 1)
    } else {
        failure(ts, pos, message)
    }
}

/// Whether `type_` is an operator of the binary level `level`: of factors
/// (1), terms (2), comparisons (3) or equalities (4).
pub open spec fn operator_of(level: nat, type_: TokenType) -> bool {
    if level == 1 {
        type_ == TokenType::Slash || type_ == TokenType::Star
    } else if level == 2 {
        type_ == TokenType::Plus || type_ == TokenType::Minus
    } else if level == 3 {
        type_ == TokenType::Greater || type_ == TokenType::GreaterEqual || type_
            == TokenType::Less || type_ == TokenType::LessEqual
    } else if level == 4 {
        type_ == TokenType::BangEqual || type_ == TokenType::EqualEqual
    } else {
        false
    }
}

/// The literal that a number or string token carries; `nil` where it
/// carries none.
pub open spec fn literal_of(token: TokenView) -> LiteralView {
    match token.literal {
        Some(l) => l,
        None => LiteralView::Nil,
    }
}

/// `primary`: a literal, a variable, or an expression in parentheses.
pub open spec fn parse_primary(ts: Seq<TokenView>, pos: int) -> Parsed<ExprView>
    decreases remaining(ts, pos), 0nat, 0nat,
{
    if check(ts, pos, TokenType::False) {
        success(ExprView::Literal(LiteralView::Bool(false)), pos + 1)
    } else if check(ts, pos, TokenType::True) {
        success(ExprView::Literal(LiteralView::Bool(true)), pos + 1)
    } else if check(ts, pos, TokenType::Nil) {
        success(ExprView::Literal(LiteralView::Nil), pos + 1)
    } else if check(ts, pos, TokenType::Number) || check(ts, pos, TokenType::String_) {
        success(ExprView::Literal(literal_of(ts[pos])), pos + 1)
    } else if check(ts, pos, TokenType::Identifier) {
        success(ExprView::Variable(ts[pos]), pos + 1)
    } else if check(ts, pos, TokenType::LeftParen) {
        let inner = parse_assignment(ts, pos + 1);
        match inner.value {
            None => inner,
            Some(e) => {
                let close = consume(
                    ts,
                    inner.next,
                    TokenType::RightParen,
                    "Expect `)` after expression"@,
                );
                Parsed {
                    value: match close.value {
                        Some(_) => Some(ExprView::Grouping(Box::new(e))),
                        None => None,
                    },
                    next: close.next,
                    errors: inner.errors + close.errors,
                }
            },
        }
    } else {
        failure(ts, pos, "Expect expression"@)
    }
}

/// `unary`: any number of `!` and `-` before a primary.
pub open spec fn parse_unary(ts: Seq<TokenView>, pos: int) -> Parsed<ExprView>
    decreases remaining(ts, pos), 0nat, 1nat,
{
    if check(ts, pos, TokenType::Bang) || check(ts, pos, TokenType::Minus) {
        let operand = parse_unary(ts, pos + 1);
        match operand.value {
            None => operand,
            Some(e) => Parsed { value: Some(ExprView::Unary(ts[pos], Box::new(e))), ..operand },
        }
    } else {
        parse_primary(ts, pos)
    }
}

/// The rest of a binary level after the operand `so_far`: while an
/// operator of the level follows, the next operand is parsed one level up
/// and joined from the left.
pub open spec fn parse_fold(ts: Seq<TokenView>, level: nat, so_far: Parsed<ExprView>) -> Parsed<
    ExprView,
>
    decreases remaining(ts, so_far.next), level + 1, 0nat,
{
    match so_far.value {
        None => so_far,
        Some(left) => if !at_end(ts, so_far.next) && operator_of(level, ts[so_far.next].type_)
            && level >= 1 {
            let right = parse_binary(ts, so_far.next + 1, (level - 1) as nat);
            let here = onward(right.next, so_far.next + 1);
            match right.value {
                None => Parsed { value: None, next: here, errors: so_far.errors + right.errors },
                Some(r) => parse_fold(
                    ts,
                    level,
                    Parsed {
                        value: Some(
                            ExprView::Binary(Box::new(left), ts[so_far.next], Box::new(r)),
                        ),
                        next: here,
                        errors: so_far.errors + right.errors,
                    },
                ),
            }
        } else {
            so_far
        },
    }
}

/// A binary level: operands of the level above, joined from the left by
/// the operators of this level. Level 0 is `unary`, then come `factor`
/// (1), `term` (2), `comparison` (3) and `equality` (4).
pub open spec fn parse_binary(ts: Seq<TokenView>, pos: int, level: nat) -> Parsed<ExprView>
    decreases remaining(ts, pos), level + 1, 1nat,
{
    if level == 0 {
        parse_unary(ts, pos)
    } else {
        let first = parse_binary(ts, pos, (level - 1) as nat);
        parse_fold(ts, level, Parsed { next: onward(first.next, pos), ..first })
    }
}

/// The error for an assignment whose left side is no variable, at the
/// line of the `=`.
pub open spec fn invalid_target(equals: TokenView) -> DiagnosticView {
    DiagnosticView {
        line: equals.line,
        location: Seq::<char>::empty(),
        message: "Invalid assignment target"@,
    }
}

/// `assignment`: an equality, and, where `=` follows it, the value to
/// assign, which is an assignment itself. Where the left side is no
/// variable, that is reported, and the left side alone is the result.
pub open spec fn parse_assignment(ts: Seq<TokenView>, pos: int) -> Parsed<ExprView>
    decreases remaining(ts, pos), 6nat, 0nat,
{
    let target = parse_binary(ts, pos, 4);
    let here = onward(target.next, pos);
    match target.value {
        None => target,
        Some(left) => if check(ts, here, TokenType::Equal) {
            let value = parse_assignment(ts, here + 1);
            match value.value {
                None => after(target.errors, value),
                Some(v) => match left {
                    ExprView::Variable(name) => after(
                        target.errors,
                        Parsed { value: Some(ExprView::Assign(name, Box::new(v))), ..value },
                    ),
                    _ => Parsed {
                        value: Some(left),
                        next: value.next,
                        errors: (target.errors + value.errors).push(invalid_target(ts[here])),
                    },
                },
            }
        } else {
            target
        },
    }
}

/// `expression`: an assignment.
pub open spec fn parse_expression(ts: Seq<TokenView>, pos: int) -> Parsed<ExprView> {
    parse_assignment(ts, pos)
}

/// An expression and the token of kind `type_` that has to follow it.
pub open spec fn expression_then(
    ts: Seq<TokenView>,
    pos: int,
    type_: TokenType,
    message: Seq<char>,
) -> Parsed<ExprView> {
    let e = parse_expression(ts, pos);
    match e.value {
        None => e,
        Some(_) => {
            let close = consume(ts, e.next, type_, message);
            Parsed {
                value: if close.value.is_some() {
                    e.value
                } else {
                    None
                },
                next: close.next,
                errors: e.errors + close.errors,
            }
        },
    }
}

/// Whether a statement begins with a token of kind `type_`.
pub open spec fn begins_statement(type_: TokenType) -> bool {
    type_ == TokenType::Class || type_ == TokenType::Fun || type_ == TokenType::Var || type_
        == TokenType::For || type_ == TokenType::If || type_ == TokenType::While || type_
        == TokenType::Print || type_ == TokenType::Return
}

/// The first position from `pos` on at which parsing can start again: the
/// end, or after a `;`, or at a token that begins a statement.
pub open spec fn boundary(ts: Seq<TokenView>, pos: int) -> int
    decreases remaining(ts, pos),
{
    if at_end(ts, pos) {
        pos
    } else if pos >= 1 && ts[pos - 1].type_ == TokenType::Semicolon {
        pos
    } else if begins_statement(ts[pos].type_) {
        pos
    } else {
        boundary(ts, pos + 1)
    }
}

/// Where parsing starts again after an error at `pos`: one token is
/// skipped, then tokens up to the next boundary.
pub open spec fn synchronize(ts: Seq<TokenView>, pos: int) -> int {
    if at_end(ts, pos) {
        pos
    } else {
        boundary(ts, pos + 1)
    }
}

/// The rest of a `var` declaration, after the keyword: the name, an
/// initializer if `=` follows, and `;`.
pub open spec fn parse_var_declaration(ts: Seq<TokenView>, pos: int) -> Parsed<StmtView> {
    let name = consume(ts, pos, TokenType::Identifier, "Expect variable name."@);
    match name.value {
        None => failure(ts, pos, "Expect variable name."@),
        Some(token) => if check(ts, pos + 1, TokenType::Equal) {
            let init = expression_then(
                ts,
                pos + 2,
                TokenType::Semicolon,
                "Expect ';' after variable declaration."@,
            );
            Parsed {
                value: match init.value {
                    Some(e) => Some(StmtView::Var(token, Some(e))),
                    None => None,
                },
                next: init.next,
                errors: init.errors,
            }
        } else {
            let semicolon = consume(
                ts,
                pos + 1,
                TokenType::Semicolon,
                "Expect ';' after variable declaration."@,
            );
            Parsed {
                value: match semicolon.value {
                    Some(_) => Some(StmtView::Var(token, None)),
                    None => None,
                },
                next: semicolon.next,
                errors: semicolon.errors,
            }
        },
    }
}

/// The condition of an `if` or a `while`, in its parentheses; `pos` is
/// where the `(` has to stand.
pub open spec fn parse_condition(
    ts: Seq<TokenView>,
    pos: int,
    before: Seq<char>,
    after_: Seq<char>,
) -> Parsed<ExprView> {
    let open = consume(ts, pos, TokenType::LeftParen, before);
    match open.value {
        None => failure(ts, pos, before),
        Some(_) => expression_then(ts, pos + 1, TokenType::RightParen, after_),
    }
}

/// A statement: `print`, a block, `if`, `while`, or an expression
/// followed by `;`.
pub open spec fn parse_statement(ts: Seq<TokenView>, pos: int) -> Parsed<StmtView>
    decreases remaining(ts, pos), 0nat,
{
    if check(ts, pos, TokenType::Print) {
        let e = expression_then(ts, pos + 1, TokenType::Semicolon, "Expect ';' after value."@);
        Parsed {
            value: match e.value {
                Some(v) => Some(StmtView::Print(v)),
                None => None,
            },
            next: e.next,
            errors: e.errors,
        }
    } else if check(ts, pos, TokenType::LeftBrace) {
        let b = parse_block(ts, pos + 1);
        Parsed {
            value: match b.value {
                Some(statements) => Some(StmtView::Block(statements)),
                None => None,
            },
            next: b.next,
            errors: b.errors,
        }
    } else if check(ts, pos, TokenType::If) {
        let condition = parse_condition(
            ts,
            pos + 1,
            "Expect '(' after 'if'."@,
            "Expect ')' after if condition."@,
        );
        match condition.value {
            None => Parsed { value: None, next: condition.next, errors: condition.errors },
            Some(c) => {
                let then = parse_statement(ts, onward(condition.next, pos + 1));
                let here = onward(then.next, pos + 1);
                match then.value {
                    None => Parsed {
                        value: None,
                        next: then.next,
                        errors: condition.errors + then.errors,
                    },
                    Some(t) => if check(ts, here, TokenType::Else) {
                        let other = parse_statement(ts, here + 1);
                        Parsed {
                            value: match other.value {
                                Some(o) => Some(
                                    StmtView::If(c, Box::new(t), Some(Box::new(o))),
                                ),
                                None => None,
                            },
                            next: other.next,
                            errors: condition.errors + then.errors + other.errors,
                        }
                    } else {
                        Parsed {
                            value: Some(StmtView::If(c, Box::new(t), None)),
                            next: then.next,
                            errors: condition.errors + then.errors,
                        }
                    },
                }
            },
        }
    } else if check(ts, pos, TokenType::While) {
        let condition = parse_condition(
            ts,
            pos + 1,
            "Expect '(' after 'while'."@,
            "Expect ')' after condition."@,
        );
        match condition.value {
            None => Parsed { value: None, next: condition.next, errors: condition.errors },
            Some(c) => {
                let body = parse_statement(ts, onward(condition.next, pos + 1));
                Parsed {
                    value: match body.value {
                        Some(b) => Some(StmtView::While(c, Box::new(b))),
                        None => None,
                    },
                    next: body.next,
                    errors: condition.errors + body.errors,
                }
            },
        }
    } else {
        let e = expression_then(ts, pos, TokenType::Semicolon, "Expect ';' after expression."@);
        Parsed {
            value: match e.value {
                Some(v) => Some(StmtView::Expression(v)),
                None => None,
            },
            next: e.next,
            errors: e.errors,
        }
    }
}

/// A declaration: a `var` declaration or a statement. Where the tokens
/// spell neither, the result is `None` and parsing starts again at the
/// next boundary.
pub open spec fn parse_declaration(ts: Seq<TokenView>, pos: int) -> Parsed<StmtView>
    decreases remaining(ts, pos), 1nat,
{
    let attempt = if check(ts, pos, TokenType::Var) {
        parse_var_declaration(ts, pos + 1)
    } else {
        parse_statement(ts, pos)
    };
    match attempt.value {
        Some(_) => attempt,
        None => Parsed { next: synchronize(ts, onward(attempt.next, pos)), ..attempt },
    }
}

/// Declarations one after another: up to the end, and inside a block up
/// to its `}`. Those that fail are left out.
pub open spec fn parse_sequence(ts: Seq<TokenView>, pos: int, in_block: bool) -> Parsed<
    Seq<StmtView>,
>
    decreases remaining(ts, pos), 2nat,
{
    if at_end(ts, pos) || (in_block && check(ts, pos, TokenType::RightBrace)) {
        success(Seq::<StmtView>::empty(), pos)
    } else {
        let first = parse_declaration(ts, pos);
        let rest = parse_sequence(ts, onward(first.next, pos + 1), in_block);
        Parsed {
            value: Some(crate::scanner::optional(first.value) + rest.value.unwrap()),
            next: rest.next,
            errors: first.errors + rest.errors,
        }
    }
}

/// The rest of a block, after its `{`: declarations, then `}`.
pub open spec fn parse_block(ts: Seq<TokenView>, pos: int) -> Parsed<Seq<StmtView>>
    decreases remaining(ts, pos), 3nat,
{
    let body = parse_sequence(ts, pos, true);
    let close = consume(ts, body.next, TokenType::RightBrace, "Expect '}' after block."@);
    Parsed {
        value: if close.value.is_some() {
            body.value
        } else {
            None
        },
        next: close.next,
        errors: body.errors + close.errors,
    }
}

/// The statements of a whole program, and the errors found in it.
pub open spec fn parse_program(ts: Seq<TokenView>) -> Parsed<Seq<StmtView>> {
    parse_sequence(ts, 0, false)
}

/// Whether a result that was parsed from `pos` on moves forward: it never
/// ends before `pos`, a construct takes at least one token, and where there
/// is no construct an error says why.
pub open spec fn forward<T>(pos: int, p: Parsed<T>) -> bool {
    &&& pos <= p.next
    &&& p.value.is_some() ==> pos < p.next
    &&& p.value.is_none() ==> p.errors.len() >= 1
}

/// `primary` moves forward.
pub proof fn lemma_primary_forward(ts: Seq<TokenView>, pos: int)
    ensures
        forward(pos, parse_primary(ts, pos)),
    decreases remaining(ts, pos), 0nat, 0nat,
{
    if check(ts, pos, TokenType::LeftParen) {
        lemma_assignment_forward(ts, pos + 1);
    }
}

/// `unary` moves forward.
pub proof fn lemma_unary_forward(ts: Seq<TokenView>, pos: int)
    ensures
        forward(pos, parse_unary(ts, pos)),
    decreases remaining(ts, pos), 0nat, 1nat,
{
    if check(ts, pos, TokenType::Bang) || check(ts, pos, TokenType::Minus) {
        lemma_unary_forward(ts, pos + 1);
    } else {
        lemma_primary_forward(ts, pos);
    }
}

/// The rest of a binary level moves forward from wherever its first
/// operand did.
pub proof fn lemma_fold_forward(ts: Seq<TokenView>, level: nat, so_far: Parsed<ExprView>, pos: int)
    requires
        forward(pos, so_far),
    ensures
        forward(pos, parse_fold(ts, level, so_far)),
    decreases remaining(ts, so_far.next), level + 1, 0nat,
{
    match so_far.value {
        None => {},
        Some(left) => {
            if !at_end(ts, so_far.next) && operator_of(level, ts[so_far.next].type_) && level >= 1 {
                lemma_binary_forward(ts, so_far.next + 1, (level - 1) as nat);
                let right = parse_binary(ts, so_far.next + 1, (level - 1) as nat);
                match right.value {
                    None => {},
                    Some(r) => {
                        lemma_fold_forward(
                            ts,
                            level,
                            Parsed {
                                value: Some(
                                    ExprView::Binary(Box::new(left), ts[so_far.next], Box::new(r)),
                                ),
                                next: right.next,
                                errors: so_far.errors + right.errors,
                            },
                            pos,
                        );
                    },
                }
            }
        },
    }
}

/// Every binary level moves forward, and is its first operand followed
/// by the rest of the level.
pub proof fn lemma_binary_forward(ts: Seq<TokenView>, pos: int, level: nat)
    ensures
        forward(pos, parse_binary(ts, pos, level)),
        level >= 1 ==> parse_binary(ts, pos, level) == parse_fold(
            ts,
            level,
            parse_binary(ts, pos, (level - 1) as nat),
        ),
    decreases remaining(ts, pos), level + 1, 1nat,
{
    if level == 0 {
        lemma_unary_forward(ts, pos);
    } else {
        lemma_binary_forward(ts, pos, (level - 1) as nat);
        lemma_fold_forward(ts, level, parse_binary(ts, pos, (level - 1) as nat), pos);
    }
}

/// `assignment` moves forward.
pub proof fn lemma_assignment_forward(ts: Seq<TokenView>, pos: int)
    ensures
        forward(pos, parse_assignment(ts, pos)),
    decreases remaining(ts, pos), 6nat, 0nat,
{
    lemma_binary_forward(ts, pos, 4);
    let target = parse_binary(ts, pos, 4);
    if target.value.is_some() && check(ts, target.next, TokenType::Equal) {
        lemma_assignment_forward(ts, target.next + 1);
    }
}

/// An expression with the token after it moves forward.
pub proof fn lemma_expression_then_forward(
    ts: Seq<TokenView>,
    pos: int,
    type_: TokenType,
    message: Seq<char>,
)
    ensures
        forward(pos, expression_then(ts, pos, type_, message)),
{
    lemma_assignment_forward(ts, pos);
}

/// A boundary is never before the position it is looked for from.
pub proof fn lemma_boundary_forward(ts: Seq<TokenView>, pos: int)
    ensures
        pos <= boundary(ts, pos),
        at_end(ts, boundary(ts, pos)) || (boundary(ts, pos) >= 1 && ts[boundary(ts, pos) - 1].type_
            == TokenType::Semicolon) || begins_statement(ts[boundary(ts, pos)].type_),
    decreases remaining(ts, pos),
{
    if !at_end(ts, pos) && !(pos >= 1 && ts[pos - 1].type_ == TokenType::Semicolon)
        && !begins_statement(ts[pos].type_) {
        lemma_boundary_forward(ts, pos + 1);
    }
}

/// A statement moves forward.
pub proof fn lemma_statement_forward(ts: Seq<TokenView>, pos: int)
    ensures
        forward(pos, parse_statement(ts, pos)),
    decreases remaining(ts, pos), 0nat,
{
    if check(ts, pos, TokenType::Print) {
        lemma_expression_then_forward(
            ts,
            pos + 1,
            TokenType::Semicolon,
            "Expect ';' after value."@,
        );
    } else if check(ts, pos, TokenType::LeftBrace) {
        lemma_block_forward(ts, pos + 1);
    } else if check(ts, pos, TokenType::If) {
        lemma_expression_then_forward(
            ts,
            pos + 2,
            TokenType::RightParen,
            "Expect ')' after if condition."@,
        );
        let condition = parse_condition(
            ts,
            pos + 1,
            "Expect '(' after 'if'."@,
            "Expect ')' after if condition."@,
        );
        if condition.value.is_some() {
            lemma_statement_forward(ts, condition.next);
            let then = parse_statement(ts, condition.next);
            if then.value.is_some() && check(ts, then.next, TokenType::Else) {
                lemma_statement_forward(ts, then.next + 1);
            }
        }
    } else if check(ts, pos, TokenType::While) {
        lemma_expression_then_forward(
            ts,
            pos + 2,
            TokenType::RightParen,
            "Expect ')' after condition."@,
        );
        let condition = parse_condition(
            ts,
            pos + 1,
            "Expect '(' after 'while'."@,
            "Expect ')' after condition."@,
        );
        if condition.value.is_some() {
            lemma_statement_forward(ts, condition.next);
        }
    } else {
        lemma_expression_then_forward(
            ts,
            pos,
            TokenType::Semicolon,
            "Expect ';' after expression."@,
        );
    }
}

/// A declaration moves forward, and where tokens are left it takes at
/// least one, whether or not they spell a declaration: so an error never
/// stops the parser.
pub proof fn lemma_declaration_forward(ts: Seq<TokenView>, pos: int)
    ensures
        forward(pos, parse_declaration(ts, pos)),
        !at_end(ts, pos) ==> pos < parse_declaration(ts, pos).next,
    decreases remaining(ts, pos), 1nat,
{
    if check(ts, pos, TokenType::Var) {
        lemma_expression_then_forward(
            ts,
            pos + 3,
            TokenType::Semicolon,
            "Expect ';' after variable declaration."@,
        );
        lemma_boundary_forward(ts, parse_var_declaration(ts, pos + 1).next + 1);
    } else {
        lemma_statement_forward(ts, pos);
        lemma_boundary_forward(ts, parse_statement(ts, pos).next + 1);
    }
}

/// A sequence of declarations always has a result, and goes on to the
/// end, or inside a block to its `}`. Where no error was found, no
/// declaration was left out before that.
pub proof fn lemma_sequence_forward(ts: Seq<TokenView>, pos: int, in_block: bool)
    ensures
        parse_sequence(ts, pos, in_block).value.is_some(),
        pos <= parse_sequence(ts, pos, in_block).next,
        at_end(ts, parse_sequence(ts, pos, in_block).next) || (in_block && check(
            ts,
            parse_sequence(ts, pos, in_block).next,
            TokenType::RightBrace,
        )),
    decreases remaining(ts, pos), 2nat,
{
    if !(at_end(ts, pos) || (in_block && check(ts, pos, TokenType::RightBrace))) {
        lemma_declaration_forward(ts, pos);
        lemma_sequence_forward(ts, parse_declaration(ts, pos).next, in_block);
    }
}

/// How many declarations a sequence is made of, counting those that the
/// tokens do not spell.
pub open spec fn attempted(ts: Seq<TokenView>, pos: int, in_block: bool) -> nat
    decreases remaining(ts, pos),
{
    if at_end(ts, pos) || (in_block && check(ts, pos, TokenType::RightBrace)) {
        0
    } else {
        1 + attempted(ts, onward(parse_declaration(ts, pos).next, pos + 1), in_block)
    }
}

/// Every declaration of a sequence either is among the statements or has
/// given an error of its own: as many broken declarations, at least as
/// many errors.
pub proof fn lemma_every_failure_is_reported(ts: Seq<TokenView>, pos: int, in_block: bool)
    ensures
        parse_sequence(ts, pos, in_block).value.is_some(),
        attempted(ts, pos, in_block) <= parse_sequence(ts, pos, in_block).value.unwrap().len()
            + parse_sequence(ts, pos, in_block).errors.len(),
    decreases remaining(ts, pos),
{
    if !(at_end(ts, pos) || (in_block && check(ts, pos, TokenType::RightBrace))) {
        lemma_declaration_forward(ts, pos);
        lemma_every_failure_is_reported(ts, parse_declaration(ts, pos).next, in_block);
    }
}

/// A block moves forward.
pub proof fn lemma_block_forward(ts: Seq<TokenView>, pos: int)
    ensures
        forward(pos, parse_block(ts, pos)),
        parse_block(ts, pos).value.is_some() ==> pos < parse_block(ts, pos).next,
    decreases remaining(ts, pos), 3nat,
{
    lemma_sequence_forward(ts, pos, true);
}

/// Parsing a program always comes to the end marker and always gives a
/// list of statements, however many errors it finds on the way.
pub proof fn lemma_program_reaches_the_end(ts: Seq<TokenView>)
    ensures
        parse_program(ts).value.is_some(),
        at_end(ts, parse_program(ts).next),
{
    lemma_sequence_forward(ts, 0, false);
}

/// Whether `after` has seen what `before` had seen and then `errors`.
pub open spec fn reported_as(after: &Reporter, before: &Reporter, errors: Seq<DiagnosticView>)
    -> bool {
    &&& after.reported() == before.reported() + errors
    &&& after.flagged() == (before.flagged() || errors.len() > 0)
}

proof fn lemma_reported_nothing(r: &Reporter)
    ensures
        reported_as(r, r, Seq::<DiagnosticView>::empty()),
{
    assert(r.reported() + Seq::<DiagnosticView>::empty() =~= r.reported());
}

proof fn lemma_reported_chain(
    a: &Reporter,
    b: &Reporter,
    c: &Reporter,
    first: Seq<DiagnosticView>,
    second: Seq<DiagnosticView>,
)
    requires
        reported_as(b, a, first),
        reported_as(c, b, second),
    ensures
        reported_as(c, a, first + second),
{
    assert(a.reported() + (first + second) =~= (a.reported() + first) + second);
}

/// The view of an optional token.
pub open spec fn token_option_view(t: Option<Token>) -> Option<TokenView> {
    match t {
        Some(t) => Some(t@),
        None => None,
    }
}

/// The view of an optional statement.
pub open spec fn stmt_option_view(s: Option<Stmt>) -> Option<StmtView> {
    match s {
        Some(s) => Some(s@),
        None => None,
    }
}

/// Whether `type_` is an operator of the binary level `level`.
fn is_operator(level: u8, type_: TokenType) -> (b: bool)
    ensures
        b == operator_of(level as nat, type_),
{
    if level == 1 {
        type_ == TokenType::Slash || type_ == TokenType::Star
    } else if level == 2 {
        type_ == TokenType::Plus || type_ == TokenType::Minus
    } else if level == 3 {
        type_ == TokenType::Greater || type_ == TokenType::GreaterEqual || type_
            == TokenType::Less || type_ == TokenType::LessEqual
    } else if level == 4 {
        type_ == TokenType::BangEqual || type_ == TokenType::EqualEqual
    } else {
        false
    }
}

/// Whether a statement begins with a token of kind `type_`.
fn starts_statement(type_: TokenType) -> (b: bool)
    ensures
        b == begins_statement(type_),
{
    type_ == TokenType::Class || type_ == TokenType::Fun || type_ == TokenType::Var || type_
        == TokenType::For || type_ == TokenType::If || type_ == TokenType::While || type_
        == TokenType::Print || type_ == TokenType::Return
}

/// A parser over one sequence of tokens, which ends with the end marker.
pub struct Parser {
    tokens: Vec<Token>,
    current: usize,
}

impl Parser {
    /// The tokens.
    pub closed spec fn stream(&self) -> Seq<TokenView> {
        tokens_view(self.tokens@)
    }

    /// How many tokens have been consumed.
    pub closed spec fn position(&self) -> int {
        self.current as int
    }

    /// The tokens end with the end marker, and the position is that of a
    /// token.
    pub closed spec fn well_formed(&self) -> bool {
        &&& self.tokens@.len() > 0
        &&& self.tokens@.last().type_ == TokenType::Eof
        &&& self.current < self.tokens@.len()
    }

    /// Whether `self` is `before`, moved on.
    spec fn continues(&self, before: &Parser) -> bool {
        &&& self.tokens == before.tokens
        &&& self.well_formed()
        &&& self.current >= before.current
    }

    /// Whether the parser and the reporter went from `before` and `seen`
    /// to `self` and `now` as `expected` says.
    spec fn followed<T>(
        &self,
        before: &Parser,
        now: &Reporter,
        seen: &Reporter,
        expected: Parsed<T>,
        value: Option<T>,
    ) -> bool {
        &&& self.continues(before)
        &&& value == expected.value
        &&& self.current == expected.next
        &&& reported_as(now, seen, expected.errors)
    }

    /// A parser at the first of `tokens`, which have to end with the end
    /// marker.
    pub fn new(tokens: Vec<Token>) -> (r: Self)
        requires
            tokens@.len() > 0,
            tokens@.last().type_ == TokenType::Eof,
        ensures
            r.well_formed(),
            r.stream() == tokens_view(tokens@),
            r.position() == 0,
    {
        Parser { tokens, current: 0 }
    }

    /// Parses the declarations from the position reached to the end. A
    /// declaration that the tokens do not spell is reported and left out,
    /// and parsing goes on at the next statement boundary.
    pub fn parse(&mut self, reporter: &mut Reporter) -> (r: Vec<Stmt>)
        requires
            old(self).well_formed(),
        ensures
            final(self).well_formed(),
            final(self).stream() == old(self).stream(),
            Some(stmts_view(r@)) == parse_sequence(
                old(self).stream(),
                old(self).position(),
                false,
            ).value,
            final(self).position() == parse_sequence(
                old(self).stream(),
                old(self).position(),
                false,
            ).next,
            reported_as(
                final(reporter),
                old(reporter),
                parse_sequence(old(self).stream(), old(self).position(), false).errors,
            ),
    {
        self.sequence(false, reporter)
    }

    /// Declarations one after another, see [`parse_sequence`].
    fn sequence(&mut self, in_block: bool, reporter: &mut Reporter) -> (r: Vec<Stmt>)
        requires
            old(self).well_formed(),
        ensures
            final(self).followed(
                old(self),
                final(reporter),
                old(reporter),
                parse_sequence(old(self).stream(), old(self).position(), in_block),
                Some(stmts_view(r@)),
            ),
        decreases remaining(old(self).stream(), old(self).position()), 2nat,
    {
        let ghost ts = self.stream();
        let ghost whole = parse_sequence(ts, self.current as int, in_block);
        let ghost seen = *reporter;
        let ghost found = Seq::<DiagnosticView>::empty();
        let mut statements: Vec<Stmt> = Vec::new();
        proof {
            lemma_reported_nothing(reporter);
            assert(stmts_view(statements@) + whole.value.unwrap() =~= whole.value.unwrap());
            assert(found + whole.errors =~= whole.errors);
        }
        while !(self.is_at_end() || (in_block && self.check(TokenType::RightBrace)))
            invariant
                self.continues(old(self)),
                ts == self.stream(),
                seen == *old(reporter),
                whole == parse_sequence(ts, old(self).current as int, in_block),
                reported_as(reporter, &seen, found),
                whole.value.is_some(),
                parse_sequence(ts, self.current as int, in_block).value.is_some(),
                whole.value.unwrap() == stmts_view(statements@) + parse_sequence(
                    ts,
                    self.current as int,
                    in_block,
                ).value.unwrap(),
                whole.next == parse_sequence(ts, self.current as int, in_block).next,
                whole.errors == found + parse_sequence(ts, self.current as int, in_block).errors,
            decreases remaining(ts, self.current as int),
        {
            let ghost here = self.current as int;
            let ghost first = parse_declaration(ts, here);
            let ghost rest = parse_sequence(ts, onward(first.next, here + 1), in_block);
            let ghost so_far = stmts_view(statements@);
            let ghost midway = *reporter;
            let declared = self.declaration(reporter);
            proof {
                lemma_reported_chain(&seen, &midway, reporter, found, first.errors);
                assert(found + (first.errors + rest.errors) =~= (found + first.errors)
                    + rest.errors);
                found = found + first.errors;
            }
            match declared {
                Some(statement) => {
                    statements.push(statement);
                    assert(stmts_view(statements@) =~= so_far + seq![statement@]);
                    assert(so_far + (seq![statement@] + rest.value.unwrap()) =~= (so_far
                        + seq![statement@]) + rest.value.unwrap());
                },
                None => {
                    assert(so_far + (Seq::<StmtView>::empty() + rest.value.unwrap()) =~= so_far
                        + rest.value.unwrap());
                },
            }
        }
        assert(stmts_view(statements@) + Seq::<StmtView>::empty() =~= stmts_view(statements@));
        assert(found + Seq::<DiagnosticView>::empty() =~= found);
        statements
    }

    /// A declaration, see [`parse_declaration`].
    fn declaration(&mut self, reporter: &mut Reporter) -> (r: Option<Stmt>)
        requires
            old(self).well_formed(),
            !at_end(old(self).stream(), old(self).position()),
        ensures
            final(self).followed(
                old(self),
                final(reporter),
                old(reporter),
                parse_declaration(old(self).stream(), old(self).position()),
                stmt_option_view(r),
            ),
            final(self).position() > old(self).position(),
        decreases remaining(old(self).stream(), old(self).position()), 1nat,
    {
        let attempt = if self.matches(TokenType::Var) {
            self.var_declaration(reporter)
        } else {
            self.statement(reporter)
        };
        match attempt {
            Some(statement) => Some(statement),
            None => {
                self.synchronize();
                None
            },
        }
    }

    /// The rest of a `var` declaration, see [`parse_var_declaration`].
    fn var_declaration(&mut self, reporter: &mut Reporter) -> (r: Option<Stmt>)
        requires
            old(self).well_formed(),
        ensures
            final(self).followed(
                old(self),
                final(reporter),
                old(reporter),
                parse_var_declaration(old(self).stream(), old(self).position()),
                stmt_option_view(r),
            ),
    {
        let name = match self.consume(TokenType::Identifier, "Expect variable name.", reporter) {
            Some(token) => token,
            None => {
                return None;
            },
        };
        proof {
            assert(old(reporter).reported() + Seq::<DiagnosticView>::empty() =~= old(reporter).reported());
        }
        if self.matches(TokenType::Equal) {
            match self.expression_then(
                TokenType::Semicolon,
                "Expect ';' after variable declaration.",
                reporter,
            ) {
                Some(e) => Some(Stmt::Var(name, Some(e))),
                None => None,
            }
        } else {
            match self.consume(
                TokenType::Semicolon,
                "Expect ';' after variable declaration.",
                reporter,
            ) {
                Some(_) => Some(Stmt::Var(name, None)),
                None => None,
            }
        }
    }

    /// A statement, see [`parse_statement`].
    fn statement(&mut self, reporter: &mut Reporter) -> (r: Option<Stmt>)
        requires
            old(self).well_formed(),
        ensures
            final(self).followed(
                old(self),
                final(reporter),
                old(reporter),
                parse_statement(old(self).stream(), old(self).position()),
                stmt_option_view(r),
            ),
            r.is_some() ==> final(self).position() > old(self).position(),
        decreases remaining(old(self).stream(), old(self).position()), 0nat,
    {
        let ghost ts = self.stream();
        let ghost seen = *reporter;
        if self.matches(TokenType::Print) {
            self.print_statement(reporter)
        } else if self.matches(TokenType::LeftBrace) {
            match self.block(reporter) {
                Some(statements) => {
                    proof {
                        crate::ast::lemma_block_view(statements);
                    }
                    Some(Stmt::Block(statements))
                },
                None => None,
            }
        } else if self.matches(TokenType::If) {
            let ghost c = parse_condition(
                ts,
                self.current as int,
                "Expect '(' after 'if'."@,
                "Expect ')' after if condition."@,
            );
            let condition = match self.condition(
                "Expect '(' after 'if'.",
                "Expect ')' after if condition.",
                reporter,
            ) {
                Some(e) => e,
                None => {
                    return None;
                },
            };
            let ghost after_condition = *reporter;
            let ghost t = parse_statement(ts, self.current as int);
            let first = self.statement(reporter);
            proof {
                lemma_reported_chain(&seen, &after_condition, reporter, c.errors, t.errors);
            }
            let then = match first {
                Some(s) => s,
                None => {
                    return None;
                },
            };
            if self.matches(TokenType::Else) {
                let ghost after_then = *reporter;
                let ghost o = parse_statement(ts, self.current as int);
                let second = self.statement(reporter);
                proof {
                    lemma_reported_chain(
                        &seen,
                        &after_then,
                        reporter,
                        c.errors + t.errors,
                        o.errors,
                    );
                }
                match second {
                    Some(other) => Some(
                        Stmt::If(condition, Box::new(then), Box::new(Some(other))),
                    ),
                    None => None,
                }
            } else {
                Some(Stmt::If(condition, Box::new(then), Box::new(None)))
            }
        } else if self.matches(TokenType::While) {
            let ghost c = parse_condition(
                ts,
                self.current as int,
                "Expect '(' after 'while'."@,
                "Expect ')' after condition."@,
            );
            let condition = match self.condition(
                "Expect '(' after 'while'.",
                "Expect ')' after condition.",
                reporter,
            ) {
                Some(e) => e,
                None => {
                    return None;
                },
            };
            let ghost after_condition = *reporter;
            let ghost b = parse_statement(ts, self.current as int);
            let body = self.statement(reporter);
            proof {
                lemma_reported_chain(&seen, &after_condition, reporter, c.errors, b.errors);
            }
            match body {
                Some(s) => Some(Stmt::While(condition, Box::new(s))),
                None => None,
            }
        } else {
            self.expression_statement(reporter)
        }
    }

    /// The condition of an `if` or a `while`, see [`parse_condition`].
    fn condition(&mut self, before: &str, after_: &str, reporter: &mut Reporter) -> (r: Option<
        Expr,
    >)
        requires
            old(self).well_formed(),
        ensures
            final(self).followed(
                old(self),
                final(reporter),
                old(reporter),
                parse_condition(old(self).stream(), old(self).position(), before@, after_@),
                expr_option_view(r),
            ),
            r.is_some() ==> final(self).position() > old(self).position(),
    {
        match self.consume(TokenType::LeftParen, before, reporter) {
            Some(_) => {},
            None => {
                return None;
            },
        }
        proof {
            assert(old(reporter).reported() + Seq::<DiagnosticView>::empty() =~= old(reporter).reported());
        }
        self.expression_then(TokenType::RightParen, after_, reporter)
    }

    /// The rest of a block, see [`parse_block`].
    fn block(&mut self, reporter: &mut Reporter) -> (r: Option<Vec<Stmt>>)
        requires
            old(self).well_formed(),
        ensures
            final(self).followed(
                old(self),
                final(reporter),
                old(reporter),
                parse_block(old(self).stream(), old(self).position()),
                match r {
                    Some(statements) => Some(stmts_view(statements@)),
                    None => None,
                },
            ),
        decreases remaining(old(self).stream(), old(self).position()), 3nat,
    {
        let ghost ts = self.stream();
        let ghost seen = *reporter;
        let ghost body = parse_sequence(ts, self.current as int, true);
        let statements = self.sequence(true, reporter);
        let ghost midway = *reporter;
        let close = self.consume(TokenType::RightBrace, "Expect '}' after block.", reporter);
        proof {
            lemma_reported_chain(
                &seen,
                &midway,
                reporter,
                body.errors,
                consume(ts, body.next, TokenType::RightBrace, "Expect '}' after block."@).errors,
            );
        }
        match close {
            Some(_) => Some(statements),
            None => None,
        }
    }

    /// The rest of a `print` statement: the value and `;`.
    fn print_statement(&mut self, reporter: &mut Reporter) -> (r: Option<Stmt>)
        requires
            old(self).well_formed(),
        ensures
            final(self).followed(
                old(self),
                final(reporter),
                old(reporter),
                expression_then(
                    old(self).stream(),
                    old(self).position(),
                    TokenType::Semicolon,
                    "Expect ';' after value."@,
                ),
                match r {
                    Some(Stmt::Print(e)) => Some(e@),
                    _ => None,
                },
            ),
            r.is_some() ==> r.unwrap() is Print,
    {
        match self.expression_then(TokenType::Semicolon, "Expect ';' after value.", reporter) {
            Some(e) => Some(Stmt::Print(e)),
            None => None,
        }
    }

    /// An expression as a statement: the expression and `;`.
    fn expression_statement(&mut self, reporter: &mut Reporter) -> (r: Option<Stmt>)
        requires
            old(self).well_formed(),
        ensures
            final(self).followed(
                old(self),
                final(reporter),
                old(reporter),
                expression_then(
                    old(self).stream(),
                    old(self).position(),
                    TokenType::Semicolon,
                    "Expect ';' after expression."@,
                ),
                match r {
                    Some(Stmt::Expression(e)) => Some(e@),
                    _ => None,
                },
            ),
            r.is_some() ==> r.unwrap() is Expression,
            r.is_some() ==> final(self).position() > old(self).position(),
    {
        match self.expression_then(TokenType::Semicolon, "Expect ';' after expression.", reporter) {
            Some(e) => Some(Stmt::Expression(e)),
            None => None,
        }
    }

    /// Skips to where parsing can start again, see [`synchronize`].
    fn synchronize(&mut self)
        requires
            old(self).well_formed(),
        ensures
            final(self).continues(old(self)),
            final(self).current == synchronize(old(self).stream(), old(self).position()),
            !at_end(old(self).stream(), old(self).position()) ==> final(self).current > old(self).current,
    {
        if self.is_at_end() {
            return ;
        }
        self.advance();
        let ghost ts = self.stream();
        while !self.is_at_end()
            invariant
                self.continues(old(self)),
                ts == self.stream(),
                self.current > old(self).current,
                !at_end(ts, old(self).current as int),
                boundary(ts, self.current as int) == boundary(ts, old(self).current + 1),
            decreases remaining(ts, self.current as int),
        {
            if self.previous().type_ == TokenType::Semicolon {
                return ;
            }
            if starts_statement(self.peek().type_) {
                return ;
            }
            self.advance();
        }
    }

    /// The token at the position reached.
    fn peek(&self) -> (r: &Token)
        requires
            self.well_formed(),
        ensures
            r@ == self.stream()[self.position()],
            *r == self.tokens@[self.current as int],
    {
        &self.tokens[self.current]
    }

    /// The token before the position reached.
    fn previous(&self) -> (r: &Token)
        requires
            self.well_formed(),
            self.current >= 1,
        ensures
            r@ == self.stream()[self.position() - 1],
    {
        &self.tokens[self.current - 1]
    }

    /// Whether only the end marker is left.
    fn is_at_end(&self) -> (b: bool)
        requires
            self.well_formed(),
        ensures
            b == at_end(self.stream(), self.position()),
    {
        self.tokens[self.current].type_ == TokenType::Eof
    }

    /// Whether the next token is of kind `type_`.
    fn check(&self, type_: TokenType) -> (b: bool)
        requires
            self.well_formed(),
        ensures
            b == check(self.stream(), self.position(), type_),
    {
        if self.is_at_end() {
            false
        } else {
            self.tokens[self.current].type_ == type_
        }
    }

    /// Consumes the next token, unless it is the end marker.
    fn advance(&mut self)
        requires
            old(self).well_formed(),
        ensures
            final(self).continues(old(self)),
            final(self).current == if at_end(old(self).stream(), old(self).position()) {
                old(self).current as int
            } else {
                old(self).current + 1
            },
    {
        if !self.is_at_end() {
            assert(self.current + 1 < self.tokens.len());
            self.current += 1;
        }
    }

    /// Consumes the next token if it is of kind `type_`.
    fn matches(&mut self, type_: TokenType) -> (b: bool)
        requires
            old(self).well_formed(),
        ensures
            final(self).continues(old(self)),
            b == check(old(self).stream(), old(self).position(), type_),
            final(self).current == if b {
                old(self).current + 1
            } else {
                old(self).current as int
            },
    {
        if self.check(type_) {
            self.advance();
            true
        } else {
            false
        }
    }

    /// Consumes the next token if it is of kind `type_`, and reports
    /// `message` at it otherwise.
    fn consume(&mut self, type_: TokenType, message: &str, reporter: &mut Reporter) -> (r: Option<
        Token,
    >)
        requires
            old(self).well_formed(),
        ensures
            final(self).followed(
                old(self),
                final(reporter),
                old(reporter),
                consume(old(self).stream(), old(self).position(), type_, message@),
                token_option_view(r),
            ),
    {
        if self.check(type_) {
            let token = self.peek().clone();
            self.advance();
            proof {
                lemma_reported_nothing(reporter);
            }
            Some(token)
        } else {
            error_at_token(reporter, self.peek(), message);
            assert(reporter.reported() =~= old(reporter).reported() + seq![
                complaint(self.stream(), self.position(), message@),
            ]);
            None
        }
    }

    /// `primary`, see [`parse_primary`].
    fn primary(&mut self, reporter: &mut Reporter) -> (r: Option<Expr>)
        requires
            old(self).well_formed(),
        ensures
            final(self).followed(
                old(self),
                final(reporter),
                old(reporter),
                parse_primary(old(self).stream(), old(self).position()),
                expr_option_view(r),
            ),
            r.is_some() ==> final(self).position() > old(self).position(),
        decreases remaining(old(self).stream(), old(self).position()), 0nat, 0nat,
    {
        proof {
            lemma_reported_nothing(reporter);
        }
        if self.matches(TokenType::False) {
            return Some(Expr::Literal(Literal::Bool(false)));
        }
        if self.matches(TokenType::True) {
            return Some(Expr::Literal(Literal::Bool(true)));
        }
        if self.matches(TokenType::Nil) {
            return Some(Expr::Literal(Literal::Nil));
        }
        if self.check(TokenType::Number) || self.check(TokenType::String_) {
            let literal = match &self.peek().literal {
                Some(l) => l.clone(),
                None => Literal::Nil,
            };
            self.advance();
            return Some(Expr::Literal(literal));
        }
        if self.check(TokenType::Identifier) {
            let name = self.peek().clone();
            self.advance();
            return Some(Expr::Variable(name));
        }
        if self.matches(TokenType::LeftParen) {
            let ghost seen = *reporter;
            let inner = match self.assignment(reporter) {
                Some(e) => e,
                None => {
                    return None;
                },
            };
            let ghost midway = *reporter;
            let ghost first = parse_assignment(old(self).stream(), old(self).position() + 1);
            let close = self.consume(TokenType::RightParen, "Expect `)` after expression", reporter);
            proof {
                lemma_reported_chain(
                    &seen,
                    &midway,
                    reporter,
                    first.errors,
                    consume(
                        old(self).stream(),
                        first.next,
                        TokenType::RightParen,
                        "Expect `)` after expression"@,
                    ).errors,
                );
            }
            return match close {
                Some(_) => Some(Expr::Grouping(Box::new(inner))),
                None => None,
            };
        }
        error_at_token(reporter, self.peek(), "Expect expression");
        assert(reporter.reported() =~= old(reporter).reported() + seq![
            complaint(self.stream(), self.position(), "Expect expression"@),
        ]);
        None
    }

    /// `unary`, see [`parse_unary`].
    fn unary(&mut self, reporter: &mut Reporter) -> (r: Option<Expr>)
        requires
            old(self).well_formed(),
        ensures
            final(self).followed(
                old(self),
                final(reporter),
                old(reporter),
                parse_unary(old(self).stream(), old(self).position()),
                expr_option_view(r),
            ),
            r.is_some() ==> final(self).position() > old(self).position(),
        decreases remaining(old(self).stream(), old(self).position()), 0nat, 1nat,
    {
        if self.check(TokenType::Bang) || self.check(TokenType::Minus) {
            let operator = self.peek().clone();
            self.advance();
            match self.unary(reporter) {
                Some(operand) => Some(Expr::Unary(operator, Box::new(operand))),
                None => None,
            }
        } else {
            self.primary(reporter)
        }
    }

    /// A binary level, see [`parse_binary`].
    fn binary(&mut self, level: u8, reporter: &mut Reporter) -> (r: Option<Expr>)
        requires
            old(self).well_formed(),
            level <= 4,
        ensures
            final(self).followed(
                old(self),
                final(reporter),
                old(reporter),
                parse_binary(old(self).stream(), old(self).position(), level as nat),
                expr_option_view(r),
            ),
            r.is_some() ==> final(self).position() > old(self).position(),
        decreases remaining(old(self).stream(), old(self).position()), level + 1, 1nat,
    {
        if level == 0 {
            return self.unary(reporter);
        }
        let ghost ts = self.stream();
        let ghost seen = *reporter;
        let ghost whole = parse_binary(ts, self.current as int, level as nat);
        let ghost first = parse_binary(ts, self.current as int, (level - 1) as nat);
        let mut expr = match self.operand(level, reporter) {
            Some(e) => e,
            None => {
                assert(whole == parse_fold(ts, level as nat, first));
                return None;
            },
        };
        let ghost found = parse_binary(ts, old(self).current as int, (level - 1) as nat).errors;
        while !self.is_at_end() && is_operator(level, self.peek().type_)
            invariant
                self.continues(old(self)),
                self.current > old(self).current,
                ts == self.stream(),
                1 <= level <= 4,
                seen == *old(reporter),
                whole == parse_binary(ts, old(self).current as int, level as nat),
                reported_as(reporter, &seen, found),
                whole == parse_fold(
                    ts,
                    level as nat,
                    Parsed { value: Some(expr@), next: self.current as int, errors: found },
                ),
            decreases remaining(ts, self.current as int),
        {
            let ghost midway = *reporter;
            let ghost right = parse_binary(ts, self.current + 1, (level - 1) as nat);
            let ghost so_far = Parsed {
                value: Some(expr@),
                next: self.current as int,
                errors: found,
            };
            let operator = self.peek().clone();
            self.advance();
            let operand = self.operand(level, reporter);
            proof {
                lemma_reported_chain(&seen, &midway, reporter, found, right.errors);
                found = found + right.errors;
            }
            match operand {
                Some(e) => {
                    expr = Expr::Binary(Box::new(expr), operator, Box::new(e));
                },
                None => {
                    assert(whole == Parsed::<ExprView> {
                        value: None,
                        next: right.next,
                        errors: found,
                    });
                    return None;
                },
            }
        }
        Some(expr)
    }

    /// An operand of the binary level `level`: an expression of the level
    /// above.
    fn operand(&mut self, level: u8, reporter: &mut Reporter) -> (r: Option<Expr>)
        requires
            old(self).well_formed(),
            1 <= level <= 4,
        ensures
            final(self).followed(
                old(self),
                final(reporter),
                old(reporter),
                parse_binary(old(self).stream(), old(self).position(), (level - 1) as nat),
                expr_option_view(r),
            ),
            r.is_some() ==> final(self).position() > old(self).position(),
        decreases remaining(old(self).stream(), old(self).position()), level, 3nat,
    {
        if level == 4 {
            self.comparison(reporter)
        } else if level == 3 {
            self.term(reporter)
        } else if level == 2 {
            self.factor(reporter)
        } else {
            self.binary(0, reporter)
        }
    }

    /// `equality`: comparisons joined by `!=` and `==`.
    fn equality(&mut self, reporter: &mut Reporter) -> (r: Option<Expr>)
        requires
            old(self).well_formed(),
        ensures
            final(self).followed(
                old(self),
                final(reporter),
                old(reporter),
                parse_binary(old(self).stream(), old(self).position(), 4),
                expr_option_view(r),
            ),
            r.is_some() ==> final(self).position() > old(self).position(),
        decreases remaining(old(self).stream(), old(self).position()), 5nat, 2nat,
    {
        self.binary(4, reporter)
    }

    /// `comparison`: terms joined by `>`, `>=`, `<` and `<=`.
    fn comparison(&mut self, reporter: &mut Reporter) -> (r: Option<Expr>)
        requires
            old(self).well_formed(),
        ensures
            final(self).followed(
                old(self),
                final(reporter),
                old(reporter),
                parse_binary(old(self).stream(), old(self).position(), 3),
                expr_option_view(r),
            ),
            r.is_some() ==> final(self).position() > old(self).position(),
        decreases remaining(old(self).stream(), old(self).position()), 4nat, 2nat,
    {
        self.binary(3, reporter)
    }

    /// `term`: factors joined by `+` and `-`.
    fn term(&mut self, reporter: &mut Reporter) -> (r: Option<Expr>)
        requires
            old(self).well_formed(),
        ensures
            final(self).followed(
                old(self),
                final(reporter),
                old(reporter),
                parse_binary(old(self).stream(), old(self).position(), 2),
                expr_option_view(r),
            ),
            r.is_some() ==> final(self).position() > old(self).position(),
        decreases remaining(old(self).stream(), old(self).position()), 3nat, 2nat,
    {
        self.binary(2, reporter)
    }

    /// `factor`: unary expressions joined by `/` and `*`.
    fn factor(&mut self, reporter: &mut Reporter) -> (r: Option<Expr>)
        requires
            old(self).well_formed(),
        ensures
            final(self).followed(
                old(self),
                final(reporter),
                old(reporter),
                parse_binary(old(self).stream(), old(self).position(), 1),
                expr_option_view(r),
            ),
            r.is_some() ==> final(self).position() > old(self).position(),
        decreases remaining(old(self).stream(), old(self).position()), 2nat, 2nat,
    {
        self.binary(1, reporter)
    }

    /// `assignment`, see [`parse_assignment`].
    fn assignment(&mut self, reporter: &mut Reporter) -> (r: Option<Expr>)
        requires
            old(self).well_formed(),
        ensures
            final(self).followed(
                old(self),
                final(reporter),
                old(reporter),
                parse_assignment(old(self).stream(), old(self).position()),
                expr_option_view(r),
            ),
            r.is_some() ==> final(self).position() > old(self).position(),
        decreases remaining(old(self).stream(), old(self).position()), 6nat, 0nat,
    {
        let ghost ts = self.stream();
        let ghost seen = *reporter;
        let ghost target = parse_binary(ts, self.current as int, 4);
        let left = match self.equality(reporter) {
            Some(e) => e,
            None => {
                return None;
            },
        };
        if !self.check(TokenType::Equal) {
            return Some(left);
        }
        let ghost midway = *reporter;
        let ghost value = parse_assignment(ts, self.current + 1);
        let line = self.peek().line;
        self.advance();
        let assigned = self.assignment(reporter);
        proof {
            lemma_reported_chain(&seen, &midway, reporter, target.errors, value.errors);
        }
        match assigned {
            None => None,
            Some(v) => match left {
                Expr::Variable(name) => Some(Expr::Assign(name, Box::new(v))),
                other => {
                    error(reporter, line, "Invalid assignment target");
                    assert(reporter.reported() =~= seen.reported() + (target.errors
                        + value.errors).push(invalid_target(ts[target.next])));
                    Some(other)
                },
            },
        }
    }

    /// `expression`, see [`parse_expression`].
    fn expression(&mut self, reporter: &mut Reporter) -> (r: Option<Expr>)
        requires
            old(self).well_formed(),
        ensures
            final(self).followed(
                old(self),
                final(reporter),
                old(reporter),
                parse_expression(old(self).stream(), old(self).position()),
                expr_option_view(r),
            ),
            r.is_some() ==> final(self).position() > old(self).position(),
    {
        self.assignment(reporter)
    }

    /// An expression and the token that has to follow it, see
    /// [`expression_then`].
    fn expression_then(&mut self, type_: TokenType, message: &str, reporter: &mut Reporter) -> (r:
        Option<Expr>)
        requires
            old(self).well_formed(),
        ensures
            final(self).followed(
                old(self),
                final(reporter),
                old(reporter),
                expression_then(old(self).stream(), old(self).position(), type_, message@),
                expr_option_view(r),
            ),
            r.is_some() ==> final(self).position() > old(self).position(),
    {
        let ghost ts = self.stream();
        let ghost seen = *reporter;
        let ghost first = parse_expression(ts, self.current as int);
        let e = match self.expression(reporter) {
            Some(e) => e,
            None => {
                return None;
            },
        };
        let ghost midway = *reporter;
        let close = self.consume(type_, message, reporter);
        proof {
            lemma_reported_chain(
                &seen,
                &midway,
                reporter,
                first.errors,
                consume(ts, first.next, type_, message@).errors,
            );
        }
        match close {
            Some(_) => Some(e),
            None => None,
        }
    }
}

} // verus!
