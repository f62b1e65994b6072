//! The parser: the grammar of the language as functions from a position in
//! the tokens to what is read there, and the recursive-descent code that
//! computes them.

use vstd::prelude::*;
use crate::expr::{call_view, expr_views, Expr, ExprView};
use crate::object::{Object, ObjectView};
use crate::stmt::{block_view, function_view, optional_expr_view, stmt_views, Stmt, StmtView};
use crate::token::{token_views, Token, TokenView};
use crate::token_type::TokenType;

verus! {

/// The largest number of parameters of a function and of arguments of a call.
pub const MAX_ARITY: usize = 255;

/// Why a token sequence is no program. The line is that of the token at
/// which the parser stopped.
#[derive(Clone, Copy, Debug, PartialEq, Eq, Structural)]
pub enum ParseError {
    /// A token of the kind `expected` is missing.
    Expected { expected: TokenType, line: usize },
    /// An expression is missing.
    ExpectedExpression { line: usize },
    /// The left side of an assignment is no variable.
    InvalidAssignmentTarget { line: usize },
    /// A function declares more than 255 parameters.
    TooManyParameters { line: usize },
    /// A call passes more than 255 arguments.
    TooManyArguments { line: usize },
}

/// How a missing token is named in a message.
pub open spec fn describe(kind: TokenType) -> Seq<char> {
    match kind {
        TokenType::LeftParen => "'('"@,
        TokenType::RightParen => "')'"@,
        TokenType::LeftBrace => "'{'"@,
        TokenType::RightBrace => "'}'"@,
        TokenType::Semicolon => "';'"@,
        TokenType::Identifier => "a name"@,
        _ => "another token"@,
    }
}

impl ParseError {
    /// The line of the token at which the parser stopped.
    pub open spec fn line_spec(self) -> usize {
        match self {
            ParseError::Expected { expected, line } => line,
            ParseError::ExpectedExpression { line } => line,
            ParseError::InvalidAssignmentTarget { line } => line,
            ParseError::TooManyParameters { line } => line,
            ParseError::TooManyArguments { line } => line,
        }
    }

    /// The message with which the error is reported.
    pub open spec fn message_spec(self) -> Seq<char> {
        match self {
            ParseError::Expected { expected, line } => "Expect "@ + describe(expected) + "."@,
            ParseError::ExpectedExpression { line } => "Expect expression."@,
            ParseError::InvalidAssignmentTarget { line } => "Invalid assignment target."@,
            ParseError::TooManyParameters { line } => "Can't have more than 255 parameters."@,
            ParseError::TooManyArguments { line } => "Can't have more than 255 arguments."@,
        }
    }

    pub fn line(&self) -> (line: usize)
        ensures
            line == self.line_spec(),
    {
        match self {
            ParseError::Expected { expected, line } => *line,
            ParseError::ExpectedExpression { line } => *line,
            ParseError::InvalidAssignmentTarget { line } => *line,
            ParseError::TooManyParameters { line } => *line,
            ParseError::TooManyArguments { line } => *line,
        }
    }

    pub fn message(&self) -> (message: String)
        ensures
            message@ == self.message_spec(),
    {
        match self {
            ParseError::Expected { expected, line } => {
                let mut message = String::from_str("Expect ");
                let name = match expected {
                    TokenType::LeftParen => "'('",
                    TokenType::RightParen => "')'",
                    TokenType::LeftBrace => "'{'",
                    TokenType::RightBrace => "'}'",
                    TokenType::Semicolon => "';'",
                    TokenType::Identifier => "a name",
                    _ => "another token",
                };
                message.append(name);
                message.append(".");
                message
            },
            ParseError::ExpectedExpression { line } => String::from_str("Expect expression."),
            ParseError::InvalidAssignmentTarget { line } => String::from_str(
                "Invalid assignment target.",
            ),
            ParseError::TooManyParameters { line } => String::from_str(
                "Can't have more than 255 parameters.",
            ),
            ParseError::TooManyArguments { line } => String::from_str(
                "Can't have more than 255 arguments.",
            ),
        }
    }
}

/// What parsing from a position gives: a value and the number of tokens it
/// was read from, or the error that stopped the parser.
pub enum Outcome<T> {
    Parsed { value: T, consumed: nat },
    Failed(ParseError),
}

impl<T> Outcome<T> {
    /// The same outcome, with `before` more tokens counted as consumed.
    pub open spec fn after(self, before: nat) -> Outcome<T> {
        match self {
            Outcome::Parsed { value, consumed } => Outcome::Parsed { value, consumed: before + consumed },
            Outcome::Failed(error) => Outcome::Failed(error),
        }
    }
}

/// The number of tokens from `at` on.
pub open spec fn remaining(tokens: Seq<TokenView>, at: int) -> nat {
    if at < tokens.len() {
        (tokens.len() - at) as nat
    } else {
        0
    }
}

/// The kind of the token at `at`; past the end of the tokens it is `Eof`.
pub open spec fn kind_at(tokens: Seq<TokenView>, at: int) -> TokenType {
    if 0 <= at < tokens.len() {
        tokens[at].token_type
    } else {
        TokenType::Eof
    }
}

/// The line of the token at `at`; past the end, that of the last token.
pub open spec fn line_at(tokens: Seq<TokenView>, at: int) -> usize {
    if 0 <= at < tokens.len() {
        tokens[at].line
    } else if tokens.len() > 0 {
        tokens[tokens.len() - 1].line
    } else {
        0
    }
}

/// The error for a missing token of kind `expected` at `at`.
pub open spec fn missing(tokens: Seq<TokenView>, at: int, expected: TokenType) -> ParseError {
    ParseError::Expected { expected, line: line_at(tokens, at) }
}

/// The binary levels of the grammar, from the tightest to the loosest:
/// factor, term, comparison, equality, `and`, `or`.
pub const FACTOR: u8 = 0;

pub const TERM: u8 = 1;

pub const COMPARISON: u8 = 2;

pub const EQUALITY: u8 = 3;

pub const LOGIC_AND: u8 = 4;

pub const LOGIC_OR: u8 = 5;

/// Whether a token of kind `kind` is an operator of the binary level `level`.
pub open spec fn is_operator(level: u8, kind: TokenType) -> bool {
    if level == FACTOR {
        kind == TokenType::Slash || kind == TokenType::Star
    } else if level == TERM {
        kind == TokenType::Minus || kind == TokenType::Plus
    } else if level == COMPARISON {
        kind == TokenType::Greater || kind == TokenType::GreaterEqual || kind == TokenType::Less || kind
            == TokenType::LessEqual
    } else if level == EQUALITY {
        kind == TokenType::BangEqual || kind == TokenType::EqualEqual
    } else if level == LOGIC_AND {
        kind == TokenType::And
    } else {
        kind == TokenType::Or
    }
}

/// The node that joins two operands at a level: a logical node for `and`
/// and `or`, a binary node below them.
pub open spec fn join(level: u8, left: ExprView, operator: TokenView, right: ExprView) -> ExprView {
    if level >= LOGIC_AND {
        ExprView::Logical { left: Box::new(left), right: Box::new(right), operator }
    } else {
        ExprView::Binary { left: Box::new(left), operator, right: Box::new(right) }
    }
}

/// primary → "true" | "false" | "nil" | NUMBER | STRING | IDENT | "(" expression ")"
pub open spec fn primary(tokens: Seq<TokenView>, at: int) -> Outcome<ExprView>
    decreases remaining(tokens, at), 2int,
{
    match kind_at(tokens, at) {
        TokenType::False => Outcome::Parsed {
            value: ExprView::Literal { value: ObjectView::Boolean(false) },
            consumed: 1,
        },
        TokenType::True => Outcome::Parsed {
            value: ExprView::Literal { value: ObjectView::Boolean(true) },
            consumed: 1,
        },
        TokenType::Null => Outcome::Parsed {
            value: ExprView::Literal { value: ObjectView::Null },
            consumed: 1,
        },
        TokenType::Number | TokenType::String => Outcome::Parsed {
            value: ExprView::Literal { value: tokens[at].literal },
            consumed: 1,
        },
        TokenType::Identifier => Outcome::Parsed {
            value: ExprView::Variable { name: tokens[at] },
            consumed: 1,
        },
        TokenType::LeftParen => match expression(tokens, at + 1) {
            Outcome::Parsed { value, consumed } => if kind_at(tokens, at + 1 + consumed)
                == TokenType::RightParen {
                Outcome::Parsed { value: ExprView::Grouping { expr: Box::new(value) }, consumed: consumed + 2 }
            } else {
                Outcome::Failed(missing(tokens, at + 1 + consumed, TokenType::RightParen))
            },
            Outcome::Failed(error) => Outcome::Failed(error),
        },
        _ => Outcome::Failed(ParseError::ExpectedExpression { line: line_at(tokens, at) }),
    }
}

/// arguments → expression ("," expression)*, at most 255 of them; `found`
/// holds the arguments read so far.
pub open spec fn argument_list(tokens: Seq<TokenView>, at: int, found: Seq<ExprView>) -> Outcome<
    Seq<ExprView>,
>
    decreases remaining(tokens, at), 20int,
{
    if found.len() >= MAX_ARITY {
        Outcome::Failed(ParseError::TooManyArguments { line: line_at(tokens, at) })
    } else {
        match expression(tokens, at) {
            Outcome::Parsed { value, consumed } => if kind_at(tokens, at + consumed) == TokenType::Comma {
                argument_list(tokens, at + consumed + 1, found.push(value)).after(consumed + 1)
            } else {
                Outcome::Parsed { value: found.push(value), consumed }
            },
            Outcome::Failed(error) => Outcome::Failed(error),
        }
    }
}

/// The calls that follow a callee: ( "(" arguments? ")" )*
pub open spec fn call_rest(tokens: Seq<TokenView>, at: int, callee: ExprView) -> Outcome<ExprView>
    decreases remaining(tokens, at), 0int,
{
    if kind_at(tokens, at) == TokenType::LeftParen {
        let arguments = if kind_at(tokens, at + 1) == TokenType::RightParen {
            Outcome::Parsed { value: Seq::empty(), consumed: 0 }
        } else {
            argument_list(tokens, at + 1, Seq::empty())
        };
        match arguments {
            Outcome::Parsed { value, consumed } => if kind_at(tokens, at + 1 + consumed)
                == TokenType::RightParen {
                call_rest(
                    tokens,
                    at + 2 + consumed,
                    ExprView::Call {
                        callee: Box::new(callee),
                        paren: tokens[at + 1 + consumed],
                        arguments: value,
                    },
                ).after(consumed + 2)
            } else {
                Outcome::Failed(missing(tokens, at + 1 + consumed, TokenType::RightParen))
            },
            Outcome::Failed(error) => Outcome::Failed(error),
        }
    } else {
        Outcome::Parsed { value: callee, consumed: 0 }
    }
}

/// call → primary ( "(" arguments? ")" )*
pub open spec fn call(tokens: Seq<TokenView>, at: int) -> Outcome<ExprView>
    decreases remaining(tokens, at), 3int,
{
    match primary(tokens, at) {
        Outcome::Parsed { value, consumed } => call_rest(tokens, at + consumed, value).after(consumed),
        Outcome::Failed(error) => Outcome::Failed(error),
    }
}

/// unary → ("!" | "-") unary | call
pub open spec fn unary(tokens: Seq<TokenView>, at: int) -> Outcome<ExprView>
    decreases remaining(tokens, at), 4int,
{
    if kind_at(tokens, at) == TokenType::Bang || kind_at(tokens, at) == TokenType::Minus {
        match unary(tokens, at + 1) {
            Outcome::Parsed { value, consumed } => Outcome::Parsed {
                value: ExprView::Unary { right: Box::new(value), operator: tokens[at] },
                consumed: consumed + 1,
            },
            Outcome::Failed(error) => Outcome::Failed(error),
        }
    } else {
        call(tokens, at)
    }
}

/// An operand of the binary level `level`: a unary expression at the
/// tightest level, an expression of the next tighter level elsewhere.
pub open spec fn operand(tokens: Seq<TokenView>, at: int, level: u8) -> Outcome<ExprView>
    decreases remaining(tokens, at), 5int + 2 * level,
{
    if level == FACTOR {
        unary(tokens, at)
    } else {
        infix(tokens, at, (level - 1) as u8)
    }
}

/// The operators and operands that follow the operand `left` at a level;
/// they associate to the left.
pub open spec fn infix_rest(tokens: Seq<TokenView>, at: int, level: u8, left: ExprView) -> Outcome<
    ExprView,
>
    decreases remaining(tokens, at), 0int,
{
    if 0 <= at < tokens.len() && is_operator(level, kind_at(tokens, at)) {
        match operand(tokens, at + 1, level) {
            Outcome::Parsed { value, consumed } => infix_rest(
                tokens,
                at + 1 + consumed,
                level,
                join(level, left, tokens[at], value),
            ).after(consumed + 1),
            Outcome::Failed(error) => Outcome::Failed(error),
        }
    } else {
        Outcome::Parsed { value: left, consumed: 0 }
    }
}

/// One binary level of the grammar: operand (operator operand)*
pub open spec fn infix(tokens: Seq<TokenView>, at: int, level: u8) -> Outcome<ExprView>
    decreases remaining(tokens, at), 6int + 2 * level,
{
    match operand(tokens, at, level) {
        Outcome::Parsed { value, consumed } => infix_rest(tokens, at + consumed, level, value).after(
            consumed,
        ),
        Outcome::Failed(error) => Outcome::Failed(error),
    }
}

/// assignment → IDENT "=" assignment | logic_or
///
/// The left side is read as an expression; only a variable can then be
/// assigned to.
pub open spec fn assignment(tokens: Seq<TokenView>, at: int) -> Outcome<ExprView>
    decreases remaining(tokens, at), 18int,
{
    match infix(tokens, at, LOGIC_OR) {
        Outcome::Parsed { value: target, consumed } => if kind_at(tokens, at + consumed)
            == TokenType::Equal {
            match assignment(tokens, at + consumed + 1) {
                Outcome::Parsed { value, consumed: more } => match target {
                    ExprView::Variable { name } => Outcome::Parsed {
                        value: ExprView::Assign { name, value: Box::new(value) },
                        consumed: consumed + 1 + more,
                    },
                    _ => Outcome::Failed(
                        ParseError::InvalidAssignmentTarget { line: line_at(tokens, at + consumed) },
                    ),
                },
                Outcome::Failed(error) => Outcome::Failed(error),
            }
        } else {
            Outcome::Parsed { value: target, consumed }
        },
        Outcome::Failed(error) => Outcome::Failed(error),
    }
}

/// expression → assignment
pub open spec fn expression(tokens: Seq<TokenView>, at: int) -> Outcome<ExprView>
    decreases remaining(tokens, at), 19int,
{
    assignment(tokens, at)
}

/// An expression followed by a token of kind `terminator`.
pub open spec fn terminated(tokens: Seq<TokenView>, at: int, terminator: TokenType) -> Outcome<ExprView> {
    match expression(tokens, at) {
        Outcome::Parsed { value, consumed } => if kind_at(tokens, at + consumed) == terminator {
            Outcome::Parsed { value, consumed: consumed + 1 }
        } else {
            Outcome::Failed(missing(tokens, at + consumed, terminator))
        },
        Outcome::Failed(error) => Outcome::Failed(error),
    }
}

/// A token of kind `terminator`, or an expression followed by one.
pub open spec fn clause(tokens: Seq<TokenView>, at: int, terminator: TokenType) -> Outcome<
    Option<ExprView>,
> {
    if kind_at(tokens, at) == terminator {
        Outcome::Parsed { value: None, consumed: 1 }
    } else {
        match terminated(tokens, at, terminator) {
            Outcome::Parsed { value, consumed } => Outcome::Parsed { value: Some(value), consumed },
            Outcome::Failed(error) => Outcome::Failed(error),
        }
    }
}

/// exprStmt → expression ";"
pub open spec fn expression_statement(tokens: Seq<TokenView>, at: int) -> Outcome<StmtView> {
    match terminated(tokens, at, TokenType::Semicolon) {
        Outcome::Parsed { value, consumed } => Outcome::Parsed {
            value: StmtView::Expression { expr: Box::new(value) },
            consumed,
        },
        Outcome::Failed(error) => Outcome::Failed(error),
    }
}

/// printStmt → "print" expression ";", from the token after `print`.
pub open spec fn print_statement(tokens: Seq<TokenView>, at: int) -> Outcome<StmtView> {
    match terminated(tokens, at, TokenType::Semicolon) {
        Outcome::Parsed { value, consumed } => Outcome::Parsed {
            value: StmtView::Print { expr: Box::new(value) },
            consumed,
        },
        Outcome::Failed(error) => Outcome::Failed(error),
    }
}

/// returnStmt → "return" expression? ";", from the token after `return`.
pub open spec fn return_statement(tokens: Seq<TokenView>, at: int, keyword: TokenView) -> Outcome<
    StmtView,
> {
    match clause(tokens, at, TokenType::Semicolon) {
        Outcome::Parsed { value, consumed } => Outcome::Parsed {
            value: StmtView::Return { keyword, value: Box::new(value) },
            consumed,
        },
        Outcome::Failed(error) => Outcome::Failed(error),
    }
}

/// varDecl → "var" IDENT ("=" expression)? ";", from the token after `var`.
pub open spec fn var_declaration(tokens: Seq<TokenView>, at: int) -> Outcome<StmtView> {
    if kind_at(tokens, at) != TokenType::Identifier {
        Outcome::Failed(missing(tokens, at, TokenType::Identifier))
    } else if kind_at(tokens, at + 1) == TokenType::Equal {
        match terminated(tokens, at + 2, TokenType::Semicolon) {
            Outcome::Parsed { value, consumed } => Outcome::Parsed {
                value: StmtView::Var { name: tokens[at], initializer: Some(value) },
                consumed: consumed + 2,
            },
            Outcome::Failed(error) => Outcome::Failed(error),
        }
    } else if kind_at(tokens, at + 1) == TokenType::Semicolon {
        Outcome::Parsed { value: StmtView::Var { name: tokens[at], initializer: None }, consumed: 2 }
    } else {
        Outcome::Failed(missing(tokens, at + 1, TokenType::Semicolon))
    }
}

/// The first clause of a `for`: ";" or a variable declaration or an
/// expression statement.
pub open spec fn for_initializer(tokens: Seq<TokenView>, at: int) -> Outcome<Option<StmtView>> {
    if kind_at(tokens, at) == TokenType::Semicolon {
        Outcome::Parsed { value: None, consumed: 1 }
    } else {
        let statement = if kind_at(tokens, at) == TokenType::Var {
            var_declaration(tokens, at + 1).after(1)
        } else {
            expression_statement(tokens, at)
        };
        match statement {
            Outcome::Parsed { value, consumed } => Outcome::Parsed { value: Some(value), consumed },
            Outcome::Failed(error) => Outcome::Failed(error),
        }
    }
}

/// What a `for` stands for: a block of the initializer and a `while`, whose
/// body is a block of the loop's body and the increment. A missing
/// condition is `true`; a missing initializer or increment is left out.
pub open spec fn desugar(
    initializer: Option<StmtView>,
    condition: Option<ExprView>,
    increment: Option<ExprView>,
    body: StmtView,
) -> StmtView {
    let round = StmtView::Block {
        statements: match increment {
            Some(expr) => seq![body, StmtView::Expression { expr: Box::new(expr) }],
            None => seq![body],
        },
    };
    let repeat = StmtView::While {
        condition: Box::new(
            match condition {
                Some(expr) => expr,
                None => ExprView::Literal { value: ObjectView::Boolean(true) },
            },
        ),
        body: Box::new(round),
    };
    StmtView::Block {
        statements: match initializer {
            Some(first) => seq![first, repeat],
            None => seq![repeat],
        },
    }
}

/// params → IDENT ("," IDENT)*, at most 255 of them; `found` holds the
/// parameters read so far.
pub open spec fn parameter_list(tokens: Seq<TokenView>, at: int, found: Seq<TokenView>) -> Outcome<
    Seq<TokenView>,
>
    decreases remaining(tokens, at),
{
    if found.len() >= MAX_ARITY {
        Outcome::Failed(ParseError::TooManyParameters { line: line_at(tokens, at) })
    } else if kind_at(tokens, at) != TokenType::Identifier {
        Outcome::Failed(missing(tokens, at, TokenType::Identifier))
    } else if kind_at(tokens, at + 1) == TokenType::Comma {
        parameter_list(tokens, at + 2, found.push(tokens[at])).after(2)
    } else {
        Outcome::Parsed { value: found.push(tokens[at]), consumed: 1 }
    }
}

/// The parameters of a function, up to its ")".
pub open spec fn parameters(tokens: Seq<TokenView>, at: int) -> Outcome<Seq<TokenView>> {
    if kind_at(tokens, at) == TokenType::RightParen {
        Outcome::Parsed { value: Seq::empty(), consumed: 0 }
    } else {
        parameter_list(tokens, at, Seq::empty())
    }
}

/// whileStmt → "while" "(" expression ")" statement, from the token after `while`.
pub open spec fn while_statement(tokens: Seq<TokenView>, at: int) -> Outcome<StmtView>
    decreases remaining(tokens, at), 10int,
{
    if kind_at(tokens, at) != TokenType::LeftParen {
        Outcome::Failed(missing(tokens, at, TokenType::LeftParen))
    } else {
        match terminated(tokens, at + 1, TokenType::RightParen) {
            Outcome::Parsed { value: condition, consumed } => match statement(tokens, at + 1 + consumed) {
                Outcome::Parsed { value: body, consumed: more } => Outcome::Parsed {
                    value: StmtView::While { condition: Box::new(condition), body: Box::new(body) },
                    consumed: 1 + consumed + more,
                },
                Outcome::Failed(error) => Outcome::Failed(error),
            },
            Outcome::Failed(error) => Outcome::Failed(error),
        }
    }
}

/// The `else` branch of an `if`, if there is one.
pub open spec fn else_branch(tokens: Seq<TokenView>, at: int) -> Outcome<Option<StmtView>>
    decreases remaining(tokens, at), 10int,
{
    if kind_at(tokens, at) == TokenType::Else {
        match statement(tokens, at + 1) {
            Outcome::Parsed { value, consumed } => Outcome::Parsed {
                value: Some(value),
                consumed: consumed + 1,
            },
            Outcome::Failed(error) => Outcome::Failed(error),
        }
    } else {
        Outcome::Parsed { value: None, consumed: 0 }
    }
}

/// ifStmt → "if" "(" expression ")" statement ("else" statement)?, from the
/// token after `if`.
pub open spec fn if_statement(tokens: Seq<TokenView>, at: int) -> Outcome<StmtView>
    decreases remaining(tokens, at), 11int,
{
    if kind_at(tokens, at) != TokenType::LeftParen {
        Outcome::Failed(missing(tokens, at, TokenType::LeftParen))
    } else {
        match terminated(tokens, at + 1, TokenType::RightParen) {
            Outcome::Parsed { value: condition, consumed } => match statement(tokens, at + 1 + consumed) {
                Outcome::Parsed { value: then_branch, consumed: more } => match else_branch(
                    tokens,
                    at + 1 + consumed + more,
                ) {
                    Outcome::Parsed { value: otherwise, consumed: last } => Outcome::Parsed {
                        value: StmtView::If {
                            condition: Box::new(condition),
                            then_branch: Box::new(then_branch),
                            else_branch: Box::new(otherwise),
                        },
                        consumed: 1 + consumed + more + last,
                    },
                    Outcome::Failed(error) => Outcome::Failed(error),
                },
                Outcome::Failed(error) => Outcome::Failed(error),
            },
            Outcome::Failed(error) => Outcome::Failed(error),
        }
    }
}

/// forStmt → "for" "(" (varDecl | exprStmt | ";") expression? ";" expression? ")" statement,
/// from the token after `for`.
pub open spec fn for_statement(tokens: Seq<TokenView>, at: int) -> Outcome<StmtView>
    decreases remaining(tokens, at), 10int,
{
    if kind_at(tokens, at) != TokenType::LeftParen {
        Outcome::Failed(missing(tokens, at, TokenType::LeftParen))
    } else {
        match for_initializer(tokens, at + 1) {
            Outcome::Parsed { value: initializer, consumed: first } => match clause(
                tokens,
                at + 1 + first,
                TokenType::Semicolon,
            ) {
                Outcome::Parsed { value: condition, consumed: second } => match clause(
                    tokens,
                    at + 1 + first + second,
                    TokenType::RightParen,
                ) {
                    Outcome::Parsed { value: increment, consumed: third } => match statement(
                        tokens,
                        at + 1 + first + second + third,
                    ) {
                        Outcome::Parsed { value: body, consumed: last } => Outcome::Parsed {
                            value: desugar(initializer, condition, increment, body),
                            consumed: 1 + first + second + third + last,
                        },
                        Outcome::Failed(error) => Outcome::Failed(error),
                    },
                    Outcome::Failed(error) => Outcome::Failed(error),
                },
                Outcome::Failed(error) => Outcome::Failed(error),
            },
            Outcome::Failed(error) => Outcome::Failed(error),
        }
    }
}

/// block → "{" declaration* "}", from the token after "{".
pub open spec fn block(tokens: Seq<TokenView>, at: int) -> Outcome<Seq<StmtView>>
    decreases remaining(tokens, at), 4int,
{
    match declarations(tokens, at, Seq::empty(), true) {
        Outcome::Parsed { value, consumed } => if kind_at(tokens, at + consumed) == TokenType::RightBrace {
            Outcome::Parsed { value, consumed: consumed + 1 }
        } else {
            Outcome::Failed(missing(tokens, at + consumed, TokenType::RightBrace))
        },
        Outcome::Failed(error) => Outcome::Failed(error),
    }
}

/// statement → exprStmt | forStmt | ifStmt | printStmt | returnStmt | whileStmt | block
pub open spec fn statement(tokens: Seq<TokenView>, at: int) -> Outcome<StmtView>
    decreases remaining(tokens, at), 1int,
{
    match kind_at(tokens, at) {
        TokenType::For => for_statement(tokens, at + 1).after(1),
        TokenType::If => if_statement(tokens, at + 1).after(1),
        TokenType::Print => print_statement(tokens, at + 1).after(1),
        TokenType::Return => return_statement(tokens, at + 1, tokens[at]).after(1),
        TokenType::While => while_statement(tokens, at + 1).after(1),
        TokenType::LeftBrace => match block(tokens, at + 1) {
            Outcome::Parsed { value, consumed } => Outcome::Parsed {
                value: StmtView::Block { statements: value },
                consumed: consumed + 1,
            },
            Outcome::Failed(error) => Outcome::Failed(error),
        },
        _ => expression_statement(tokens, at),
    }
}

/// funDecl → "fun" IDENT "(" params? ")" "{" declaration* "}", from the
/// token after `fun`.
pub open spec fn function(tokens: Seq<TokenView>, at: int) -> Outcome<StmtView>
    decreases remaining(tokens, at), 10int,
{
    if kind_at(tokens, at) != TokenType::Identifier {
        Outcome::Failed(missing(tokens, at, TokenType::Identifier))
    } else if kind_at(tokens, at + 1) != TokenType::LeftParen {
        Outcome::Failed(missing(tokens, at + 1, TokenType::LeftParen))
    } else {
        match parameters(tokens, at + 2) {
            Outcome::Parsed { value: params, consumed } => if kind_at(tokens, at + 2 + consumed)
                != TokenType::RightParen {
                Outcome::Failed(missing(tokens, at + 2 + consumed, TokenType::RightParen))
            } else if kind_at(tokens, at + 3 + consumed) != TokenType::LeftBrace {
                Outcome::Failed(missing(tokens, at + 3 + consumed, TokenType::LeftBrace))
            } else {
                match block(tokens, at + 4 + consumed) {
                    Outcome::Parsed { value: body, consumed: more } => Outcome::Parsed {
                        value: StmtView::Function { name: tokens[at], params, body },
                        consumed: 4 + consumed + more,
                    },
                    Outcome::Failed(error) => Outcome::Failed(error),
                }
            },
            Outcome::Failed(error) => Outcome::Failed(error),
        }
    }
}

/// declaration → funDecl | varDecl | statement
pub open spec fn declaration(tokens: Seq<TokenView>, at: int) -> Outcome<StmtView>
    decreases remaining(tokens, at), 2int,
{
    match kind_at(tokens, at) {
        TokenType::Fun => function(tokens, at + 1).after(1),
        TokenType::Var => var_declaration(tokens, at + 1).after(1),
        _ => statement(tokens, at),
    }
}

/// Whether a list of declarations ends at `at`: at the end of the tokens,
/// and inside a block also at "}".
pub open spec fn ends_list(tokens: Seq<TokenView>, at: int, nested: bool) -> bool {
    kind_at(tokens, at) == TokenType::Eof || (nested && kind_at(tokens, at) == TokenType::RightBrace)
}

/// declaration*, up to the end of the list; `found` holds the declarations
/// read so far.
pub open spec fn declarations(tokens: Seq<TokenView>, at: int, found: Seq<StmtView>, nested: bool) -> Outcome<
    Seq<StmtView>,
>
    decreases remaining(tokens, at), 3int,
{
    if ends_list(tokens, at, nested) {
        Outcome::Parsed { value: found, consumed: 0 }
    } else {
        match declaration(tokens, at) {
            Outcome::Parsed { value, consumed } => if consumed == 0 {
                Outcome::Failed(ParseError::ExpectedExpression { line: line_at(tokens, at) })
            } else {
                declarations(tokens, at + consumed, found.push(value), nested).after(consumed)
            },
            Outcome::Failed(error) => Outcome::Failed(error),
        }
    }
}

/// program → declaration* Eof
pub open spec fn program(tokens: Seq<TokenView>) -> Outcome<Seq<StmtView>> {
    declarations(tokens, 0, Seq::empty(), false)
}

/// Whether what the parser returned, and where it stands, is what the
/// grammar gives.
pub open spec fn agrees_expr(
    outcome: Outcome<ExprView>,
    result: Result<Expr, ParseError>,
    before: int,
    after: int,
) -> bool {
    match outcome {
        Outcome::Parsed { value, consumed } => result is Ok && result->Ok_0@ == value && after == before
            + consumed,
        Outcome::Failed(error) => result is Err && result->Err_0 == error,
    }
}

pub open spec fn agrees_stmt(
    outcome: Outcome<StmtView>,
    result: Result<Stmt, ParseError>,
    before: int,
    after: int,
) -> bool {
    match outcome {
        Outcome::Parsed { value, consumed } => result is Ok && result->Ok_0@ == value && after == before
            + consumed,
        Outcome::Failed(error) => result is Err && result->Err_0 == error,
    }
}

pub open spec fn agrees_exprs(
    outcome: Outcome<Seq<ExprView>>,
    result: Result<Vec<Expr>, ParseError>,
    before: int,
    after: int,
) -> bool {
    match outcome {
        Outcome::Parsed { value, consumed } => result is Ok && expr_views(result->Ok_0@) == value && after
            == before + consumed,
        Outcome::Failed(error) => result is Err && result->Err_0 == error,
    }
}

pub open spec fn agrees_stmts(
    outcome: Outcome<Seq<StmtView>>,
    result: Result<Vec<Stmt>, ParseError>,
    before: int,
    after: int,
) -> bool {
    match outcome {
        Outcome::Parsed { value, consumed } => result is Ok && stmt_views(result->Ok_0@) == value && after
            == before + consumed,
        Outcome::Failed(error) => result is Err && result->Err_0 == error,
    }
}

pub open spec fn agrees_tokens(
    outcome: Outcome<Seq<TokenView>>,
    result: Result<Vec<Token>, ParseError>,
    before: int,
    after: int,
) -> bool {
    match outcome {
        Outcome::Parsed { value, consumed } => result is Ok && token_views(result->Ok_0@) == value && after
            == before + consumed,
        Outcome::Failed(error) => result is Err && result->Err_0 == error,
    }
}

pub open spec fn agrees_optional_expr(
    outcome: Outcome<Option<ExprView>>,
    result: Result<Option<Expr>, ParseError>,
    before: int,
    after: int,
) -> bool {
    match outcome {
        Outcome::Parsed { value, consumed } => result is Ok && optional_expr_view(result->Ok_0) == value
            && after == before + consumed,
        Outcome::Failed(error) => result is Err && result->Err_0 == error,
    }
}

/// The view of an optional statement.
pub open spec fn optional_stmt_view(stmt: Option<Stmt>) -> Option<StmtView> {
    match stmt {
        Some(s) => Some(s@),
        None => None,
    }
}

pub open spec fn agrees_optional_stmt(
    outcome: Outcome<Option<StmtView>>,
    result: Result<Option<Stmt>, ParseError>,
    before: int,
    after: int,
) -> bool {
    match outcome {
        Outcome::Parsed { value, consumed } => result is Ok && optional_stmt_view(result->Ok_0) == value
            && after == before + consumed,
        Outcome::Failed(error) => result is Err && result->Err_0 == error,
    }
}

/// The recursive-descent parser, with one token of lookahead.
pub struct Parser {
    tokens: Vec<Token>,
    current: usize,
}

impl Parser {
    /// The tokens being parsed.
    pub closed spec fn tokens(&self) -> Seq<TokenView> {
        token_views(self.tokens@)
    }

    /// The position of the next token to read.
    pub closed spec fn position(&self) -> int {
        self.current as int
    }

    pub closed spec fn well_formed(&self) -> bool {
        self.current <= self.tokens@.len()
    }

    pub fn new(tokens: Vec<Token>) -> (parser: Self)
        ensures
            parser.well_formed(),
            parser.tokens() == token_views(tokens@),
            parser.position() == 0,
    {
        Self { tokens, current: 0 }
    }

    /// The kind of the next token; `Eof` past the end.
    fn kind(&self) -> (kind: TokenType)
        requires
            self.well_formed(),
        ensures
            kind == kind_at(self.tokens(), self.current as int),
    {
        if self.current < self.tokens.len() {
            self.tokens[self.current].token_type
        } else {
            TokenType::Eof
        }
    }

    /// The line at which an error found now is reported.
    fn line(&self) -> (line: usize)
        requires
            self.well_formed(),
        ensures
            line == line_at(self.tokens(), self.current as int),
    {
        if self.current < self.tokens.len() {
            self.tokens[self.current].line
        } else if self.tokens.len() > 0 {
            self.tokens[self.tokens.len() - 1].line
        } else {
            0
        }
    }

    fn is_at_end(&self) -> (at_end: bool)
        requires
            self.well_formed(),
        ensures
            at_end == (kind_at(self.tokens(), self.current as int) == TokenType::Eof),
    {
        self.kind() == TokenType::Eof
    }

    /// Whether the next token is of kind `token_type`.
    fn check(&self, token_type: TokenType) -> (found: bool)
        requires
            self.well_formed(),
        ensures
            found == (kind_at(self.tokens(), self.current as int) == token_type),
    {
        self.kind() == token_type
    }

    /// The next token is a token of the sequence unless its kind is `Eof`.
    proof fn token_follows(&self)
        requires
            self.well_formed(),
            kind_at(self.tokens(), self.current as int) != TokenType::Eof,
        ensures
            self.current < self.tokens@.len(),
            self.current < usize::MAX,
            self.tokens().len() == self.tokens@.len(),
    {
        let count = self.tokens.len();
        assert(count == self.tokens@.len());
    }

    /// Consumes the next token.
    fn skip(&mut self)
        requires
            old(self).well_formed(),
            kind_at(old(self).tokens(), old(self).current as int) != TokenType::Eof,
        ensures
            final(self).well_formed(),
            final(self).tokens == old(self).tokens,
            old(self).current <= final(self).current,
            final(self).current == old(self).current + 1,
            old(self).current < old(self).tokens().len(),
    {
        proof {
            self.token_follows();
        }
        self.current = self.current + 1;
    }

    /// Consumes the next token and returns it.
    fn advance(&mut self) -> (token: Token)
        requires
            old(self).well_formed(),
            kind_at(old(self).tokens(), old(self).current as int) != TokenType::Eof,
        ensures
            final(self).well_formed(),
            final(self).tokens == old(self).tokens,
            old(self).current <= final(self).current,
            final(self).current == old(self).current + 1,
            old(self).current < old(self).tokens().len(),
            token@ == old(self).tokens()[old(self).current as int],
    {
        proof {
            self.token_follows();
        }
        self.current = self.current + 1;
        self.tokens[self.current - 1].clone()
    }

    /// Consumes the next token if it is of kind `token_type`.
    fn match_token(&mut self, token_type: TokenType) -> (matched: bool)
        requires
            old(self).well_formed(),
            token_type != TokenType::Eof,
        ensures
            final(self).well_formed(),
            final(self).tokens == old(self).tokens,
            old(self).current <= final(self).current,
            matched == (kind_at(old(self).tokens(), old(self).current as int) == token_type),
            final(self).current == old(self).current + (if matched {
                1int
            } else {
                0int
            }),
    {
        if self.check(token_type) {
            self.skip();
            return true;
        }
        false
    }

    /// Consumes the next token, which must be of kind `token_type`.
    fn consume(&mut self, token_type: TokenType) -> (result: Result<Token, ParseError>)
        requires
            old(self).well_formed(),
            token_type != TokenType::Eof,
        ensures
            final(self).well_formed(),
            final(self).tokens == old(self).tokens,
            old(self).current <= final(self).current,
            kind_at(old(self).tokens(), old(self).current as int) == token_type ==> {
                &&& result is Ok
                &&& result->Ok_0@ == old(self).tokens()[old(self).current as int]
                &&& final(self).current == old(self).current + 1
            },
            kind_at(old(self).tokens(), old(self).current as int) != token_type ==> {
                &&& result is Err
                &&& result->Err_0 == missing(old(self).tokens(), old(self).current as int, token_type)
            },
    {
        if self.check(token_type) {
            return Ok(self.advance());
        }
        Err(ParseError::Expected { expected: token_type, line: self.line() })
    }

    fn primary(&mut self) -> (result: Result<Expr, ParseError>)
        requires
            old(self).well_formed(),
        ensures
            final(self).well_formed(),
            final(self).tokens == old(self).tokens,
            old(self).current <= final(self).current,
            agrees_expr(
                primary(old(self).tokens(), old(self).current as int),
                result,
                old(self).current as int,
                final(self).current as int,
            ),
        decreases remaining(old(self).tokens(), old(self).current as int), 2int,
    {
        match self.kind() {
            TokenType::False => {
                self.skip();
                Ok(Expr::Literal { value: Object::Boolean(false) })
            },
            TokenType::True => {
                self.skip();
                Ok(Expr::Literal { value: Object::Boolean(true) })
            },
            TokenType::Null => {
                self.skip();
                Ok(Expr::Literal { value: Object::Null })
            },
            TokenType::Number | TokenType::String => {
                let token = self.advance();
                Ok(Expr::Literal { value: token.literal })
            },
            TokenType::Identifier => {
                let name = self.advance();
                Ok(Expr::Variable { name })
            },
            TokenType::LeftParen => {
                self.skip();
                match self.expression() {
                    Ok(expr) => match self.consume(TokenType::RightParen) {
                        Ok(_) => Ok(Expr::Grouping { expr: Box::new(expr) }),
                        Err(error) => Err(error),
                    },
                    Err(error) => Err(error),
                }
            },
            _ => Err(ParseError::ExpectedExpression { line: self.line() }),
        }
    }

    /// Reads the arguments of a call, up to its ")".
    fn arguments(&mut self) -> (result: Result<Vec<Expr>, ParseError>)
        requires
            old(self).well_formed(),
        ensures
            final(self).well_formed(),
            final(self).tokens == old(self).tokens,
            old(self).current <= final(self).current,
            agrees_exprs(
                if kind_at(old(self).tokens(), old(self).current as int) == TokenType::RightParen {
                    Outcome::Parsed { value: Seq::empty(), consumed: 0 }
                } else {
                    argument_list(old(self).tokens(), old(self).current as int, Seq::empty())
                },
                result,
                old(self).current as int,
                final(self).current as int,
            ),
        decreases remaining(old(self).tokens(), old(self).current as int), 20int,
    {
        let mut arguments: Vec<Expr> = Vec::new();
        assert(expr_views(arguments@) =~= Seq::empty());
        if self.check(TokenType::RightParen) {
            return Ok(arguments);
        }
        let ghost goal = argument_list(old(self).tokens(), old(self).current as int, Seq::empty());
        loop
            invariant
                self.well_formed(),
                self.tokens == old(self).tokens,
                old(self).current <= self.current,
                argument_list(self.tokens(), self.current as int, expr_views(arguments@)).after(
                    (self.current - old(self).current) as nat,
                ) == goal,
                goal == argument_list(old(self).tokens(), old(self).current as int, Seq::empty()),
                kind_at(old(self).tokens(), old(self).current as int) != TokenType::RightParen,
                remaining(self.tokens(), self.current as int) < remaining(
                    old(self).tokens(),
                    old(self).current as int,
                ) || self.current == old(self).current,
            decreases remaining(self.tokens(), self.current as int),
        {
            let ghost at = self.current as int;
            let ghost found = expr_views(arguments@);
            let ghost rest = argument_list(self.tokens(), at, found);
            if arguments.len() >= MAX_ARITY {
                assert(rest is Failed);
                return Err(ParseError::TooManyArguments { line: self.line() });
            }
            match self.expression() {
                Ok(expr) => {
                    arguments.push(expr);
                    assert(expr_views(arguments@) =~= found.push(expr@));
                },
                Err(error) => {
                    assert(rest == Outcome::<Seq<ExprView>>::Failed(error));
                    return Err(error);
                },
            }
            let ghost consumed = (self.current - at) as nat;
            if !self.match_token(TokenType::Comma) {
                assert(rest == (Outcome::Parsed { value: expr_views(arguments@), consumed }));
                return Ok(arguments);
            }
            assert(rest == argument_list(self.tokens(), self.current as int, expr_views(arguments@)).after(
                consumed + 1,
            ));
        }
    }

    fn call(&mut self) -> (result: Result<Expr, ParseError>)
        requires
            old(self).well_formed(),
        ensures
            final(self).well_formed(),
            final(self).tokens == old(self).tokens,
            old(self).current <= final(self).current,
            agrees_expr(
                call(old(self).tokens(), old(self).current as int),
                result,
                old(self).current as int,
                final(self).current as int,
            ),
        decreases remaining(old(self).tokens(), old(self).current as int), 3int,
    {
        let mut expr = match self.primary() {
            Ok(expr) => expr,
            Err(error) => {
                return Err(error);
            },
        };
        let ghost goal = call(old(self).tokens(), old(self).current as int);
        while self.check(TokenType::LeftParen)
            invariant
                self.well_formed(),
                self.tokens == old(self).tokens,
                old(self).current <= self.current,
                call_rest(self.tokens(), self.current as int, expr@).after(
                    (self.current - old(self).current) as nat,
                ) == goal,
                goal == call(old(self).tokens(), old(self).current as int),
            decreases remaining(self.tokens(), self.current as int),
        {
            let ghost at = self.current as int;
            let ghost rest = call_rest(self.tokens(), at, expr@);
            self.skip();
            let arguments = match self.arguments() {
                Ok(arguments) => arguments,
                Err(error) => {
                    assert(rest == Outcome::<ExprView>::Failed(error));
                    return Err(error);
                },
            };
            let ghost consumed = (self.current - at - 1) as nat;
            let paren = match self.consume(TokenType::RightParen) {
                Ok(paren) => paren,
                Err(error) => {
                    assert(rest == Outcome::<ExprView>::Failed(error));
                    return Err(error);
                },
            };
            proof {
                call_view(Box::new(expr), paren, arguments);
            }
            expr = Expr::Call { callee: Box::new(expr), paren, arguments };
            assert(rest == call_rest(self.tokens(), self.current as int, expr@).after(consumed + 2));
        }
        Ok(expr)
    }

    fn unary(&mut self) -> (result: Result<Expr, ParseError>)
        requires
            old(self).well_formed(),
        ensures
            final(self).well_formed(),
            final(self).tokens == old(self).tokens,
            old(self).current <= final(self).current,
            agrees_expr(
                unary(old(self).tokens(), old(self).current as int),
                result,
                old(self).current as int,
                final(self).current as int,
            ),
        decreases remaining(old(self).tokens(), old(self).current as int), 4int,
    {
        if self.check(TokenType::Bang) || self.check(TokenType::Minus) {
            let operator = self.advance();
            match self.unary() {
                Ok(right) => Ok(Expr::Unary { right: Box::new(right), operator }),
                Err(error) => Err(error),
            }
        } else {
            self.call()
        }
    }

    /// Reads an operand of the binary level `level`.
    fn operand(&mut self, level: u8) -> (result: Result<Expr, ParseError>)
        requires
            old(self).well_formed(),
            level <= LOGIC_OR,
        ensures
            final(self).well_formed(),
            final(self).tokens == old(self).tokens,
            old(self).current <= final(self).current,
            agrees_expr(
                operand(old(self).tokens(), old(self).current as int, level),
                result,
                old(self).current as int,
                final(self).current as int,
            ),
        decreases remaining(old(self).tokens(), old(self).current as int), 5int + 2 * level,
    {
        if level == FACTOR {
            self.unary()
        } else {
            self.infix(level - 1)
        }
    }

    /// Whether the next token is an operator of the binary level `level`.
    fn operator_follows(&self, level: u8) -> (follows: bool)
        requires
            self.well_formed(),
        ensures
            follows == (0 <= self.current < self.tokens().len() && is_operator(
                level,
                kind_at(self.tokens(), self.current as int),
            )),
    {
        if self.current >= self.tokens.len() {
            return false;
        }
        let kind = self.kind();
        if level == FACTOR {
            kind == TokenType::Slash || kind == TokenType::Star
        } else if level == TERM {
            kind == TokenType::Minus || kind == TokenType::Plus
        } else if level == COMPARISON {
            kind == TokenType::Greater || kind == TokenType::GreaterEqual || kind == TokenType::Less
                || kind == TokenType::LessEqual
        } else if level == EQUALITY {
            kind == TokenType::BangEqual || kind == TokenType::EqualEqual
        } else if level == LOGIC_AND {
            kind == TokenType::And
        } else {
            kind == TokenType::Or
        }
    }

    /// Reads an expression of the binary level `level`: factor, term,
    /// comparison, equality, `and` or `or`.
    fn infix(&mut self, level: u8) -> (result: Result<Expr, ParseError>)
        requires
            old(self).well_formed(),
            level <= LOGIC_OR,
        ensures
            final(self).well_formed(),
            final(self).tokens == old(self).tokens,
            old(self).current <= final(self).current,
            agrees_expr(
                infix(old(self).tokens(), old(self).current as int, level),
                result,
                old(self).current as int,
                final(self).current as int,
            ),
        decreases remaining(old(self).tokens(), old(self).current as int), 6int + 2 * level,
    {
        let mut expr = match self.operand(level) {
            Ok(expr) => expr,
            Err(error) => {
                return Err(error);
            },
        };
        let ghost goal = infix(old(self).tokens(), old(self).current as int, level);
        while self.operator_follows(level)
            invariant
                self.well_formed(),
                self.tokens == old(self).tokens,
                old(self).current <= self.current,
                level <= LOGIC_OR,
                infix_rest(self.tokens(), self.current as int, level, expr@).after(
                    (self.current - old(self).current) as nat,
                ) == goal,
                goal == infix(old(self).tokens(), old(self).current as int, level),
            decreases remaining(self.tokens(), self.current as int),
        {
            let ghost at = self.current as int;
            let ghost left = expr@;
            let ghost rest = infix_rest(self.tokens(), at, level, left);
            let operator = self.advance();
            let right = match self.operand(level) {
                Ok(right) => right,
                Err(error) => {
                    assert(rest == Outcome::<ExprView>::Failed(error));
                    return Err(error);
                },
            };
            let ghost consumed = (self.current - at - 1) as nat;
            expr = if level >= LOGIC_AND {
                Expr::Logical { left: Box::new(expr), right: Box::new(right), operator }
            } else {
                Expr::Binary { left: Box::new(expr), operator, right: Box::new(right) }
            };
            assert(expr@ == join(level, left, operator@, right@));
            assert(rest == infix_rest(self.tokens(), self.current as int, level, expr@).after(consumed + 1));
        }
        Ok(expr)
    }

    fn assignment(&mut self) -> (result: Result<Expr, ParseError>)
        requires
            old(self).well_formed(),
        ensures
            final(self).well_formed(),
            final(self).tokens == old(self).tokens,
            old(self).current <= final(self).current,
            agrees_expr(
                assignment(old(self).tokens(), old(self).current as int),
                result,
                old(self).current as int,
                final(self).current as int,
            ),
        decreases remaining(old(self).tokens(), old(self).current as int), 18int,
    {
        let target = match self.infix(LOGIC_OR) {
            Ok(target) => target,
            Err(error) => {
                return Err(error);
            },
        };
        if self.check(TokenType::Equal) {
            let line = self.line();
            self.skip();
            let value = match self.assignment() {
                Ok(value) => value,
                Err(error) => {
                    return Err(error);
                },
            };
            match target {
                Expr::Variable { name } => Ok(Expr::Assign { name, value: Box::new(value) }),
                _ => Err(ParseError::InvalidAssignmentTarget { line }),
            }
        } else {
            Ok(target)
        }
    }

    fn expression(&mut self) -> (result: Result<Expr, ParseError>)
        requires
            old(self).well_formed(),
        ensures
            final(self).well_formed(),
            final(self).tokens == old(self).tokens,
            old(self).current <= final(self).current,
            agrees_expr(
                expression(old(self).tokens(), old(self).current as int),
                result,
                old(self).current as int,
                final(self).current as int,
            ),
        decreases remaining(old(self).tokens(), old(self).current as int), 19int,
    {
        self.assignment()
    }

    /// Reads an expression and the token of kind `terminator` after it.
    fn terminated(&mut self, terminator: TokenType) -> (result: Result<Expr, ParseError>)
        requires
            old(self).well_formed(),
            terminator != TokenType::Eof,
        ensures
            final(self).well_formed(),
            final(self).tokens == old(self).tokens,
            old(self).current <= final(self).current,
            agrees_expr(
                terminated(old(self).tokens(), old(self).current as int, terminator),
                result,
                old(self).current as int,
                final(self).current as int,
            ),
    {
        match self.expression() {
            Ok(expr) => match self.consume(terminator) {
                Ok(_) => Ok(expr),
                Err(error) => Err(error),
            },
            Err(error) => Err(error),
        }
    }

    /// Reads a token of kind `terminator`, or an expression and such a token.
    fn clause(&mut self, terminator: TokenType) -> (result: Result<Option<Expr>, ParseError>)
        requires
            old(self).well_formed(),
            terminator != TokenType::Eof,
        ensures
            final(self).well_formed(),
            final(self).tokens == old(self).tokens,
            old(self).current <= final(self).current,
            agrees_optional_expr(
                clause(old(self).tokens(), old(self).current as int, terminator),
                result,
                old(self).current as int,
                final(self).current as int,
            ),
    {
        if self.match_token(terminator) {
            return Ok(None);
        }
        match self.terminated(terminator) {
            Ok(expr) => Ok(Some(expr)),
            Err(error) => Err(error),
        }
    }

    fn expression_statement(&mut self) -> (result: Result<Stmt, ParseError>)
        requires
            old(self).well_formed(),
        ensures
            final(self).well_formed(),
            final(self).tokens == old(self).tokens,
            old(self).current <= final(self).current,
            agrees_stmt(
                expression_statement(old(self).tokens(), old(self).current as int),
                result,
                old(self).current as int,
                final(self).current as int,
            ),
    {
        match self.terminated(TokenType::Semicolon) {
            Ok(expr) => Ok(Stmt::Expression { expr: Box::new(expr) }),
            Err(error) => Err(error),
        }
    }

    fn print_statement(&mut self) -> (result: Result<Stmt, ParseError>)
        requires
            old(self).well_formed(),
        ensures
            final(self).well_formed(),
            final(self).tokens == old(self).tokens,
            old(self).current <= final(self).current,
            agrees_stmt(
                print_statement(old(self).tokens(), old(self).current as int),
                result,
                old(self).current as int,
                final(self).current as int,
            ),
    {
        match self.terminated(TokenType::Semicolon) {
            Ok(expr) => Ok(Stmt::Print { expr: Box::new(expr) }),
            Err(error) => Err(error),
        }
    }

    fn return_statement(&mut self, keyword: Token) -> (result: Result<Stmt, ParseError>)
        requires
            old(self).well_formed(),
        ensures
            final(self).well_formed(),
            final(self).tokens == old(self).tokens,
            old(self).current <= final(self).current,
            agrees_stmt(
                return_statement(old(self).tokens(), old(self).current as int, keyword@),
                result,
                old(self).current as int,
                final(self).current as int,
            ),
    {
        match self.clause(TokenType::Semicolon) {
            Ok(value) => Ok(Stmt::Return { keyword, value: Box::new(value) }),
            Err(error) => Err(error),
        }
    }

    fn var_declaration(&mut self) -> (result: Result<Stmt, ParseError>)
        requires
            old(self).well_formed(),
        ensures
            final(self).well_formed(),
            final(self).tokens == old(self).tokens,
            old(self).current <= final(self).current,
            agrees_stmt(
                var_declaration(old(self).tokens(), old(self).current as int),
                result,
                old(self).current as int,
                final(self).current as int,
            ),
    {
        let name = match self.consume(TokenType::Identifier) {
            Ok(name) => name,
            Err(error) => {
                return Err(error);
            },
        };
        if self.match_token(TokenType::Equal) {
            match self.terminated(TokenType::Semicolon) {
                Ok(expr) => Ok(Stmt::Var { name, initializer: Some(expr) }),
                Err(error) => Err(error),
            }
        } else {
            match self.consume(TokenType::Semicolon) {
                Ok(_) => Ok(Stmt::Var { name, initializer: None }),
                Err(error) => Err(error),
            }
        }
    }

    fn for_initializer(&mut self) -> (result: Result<Option<Stmt>, ParseError>)
        requires
            old(self).well_formed(),
        ensures
            final(self).well_formed(),
            final(self).tokens == old(self).tokens,
            old(self).current <= final(self).current,
            agrees_optional_stmt(
                for_initializer(old(self).tokens(), old(self).current as int),
                result,
                old(self).current as int,
                final(self).current as int,
            ),
    {
        if self.match_token(TokenType::Semicolon) {
            return Ok(None);
        }
        let statement = if self.match_token(TokenType::Var) {
            self.var_declaration()
        } else {
            self.expression_statement()
        };
        match statement {
            Ok(stmt) => Ok(Some(stmt)),
            Err(error) => Err(error),
        }
    }

    /// Builds what a `for` stands for.
    fn desugar(initializer: Option<Stmt>, condition: Option<Expr>, increment: Option<Expr>, body: Stmt) -> (stmt:
        Stmt)
        ensures
            stmt@ == desugar(
                optional_stmt_view(initializer),
                optional_expr_view(condition),
                optional_expr_view(increment),
                body@,
            ),
    {
        let ghost body_view = body@;
        let mut round: Vec<Stmt> = Vec::new();
        round.push(body);
        match increment {
            Some(expr) => {
                round.push(Stmt::Expression { expr: Box::new(expr) });
                assert(stmt_views(round@) =~= seq![
                    body_view,
                    StmtView::Expression { expr: Box::new(expr@) },
                ]);
            },
            None => {
                assert(stmt_views(round@) =~= seq![body_view]);
            },
        }
        proof {
            block_view(round);
        }
        let condition = match condition {
            Some(expr) => expr,
            None => Expr::Literal { value: Object::Boolean(true) },
        };
        let repeat = Stmt::While {
            condition: Box::new(condition),
            body: Box::new(Stmt::Block { statements: round }),
        };
        let ghost repeat_view = repeat@;
        let mut statements: Vec<Stmt> = Vec::new();
        match initializer {
            Some(first) => {
                let ghost first_view = first@;
                statements.push(first);
                statements.push(repeat);
                assert(stmt_views(statements@) =~= seq![first_view, repeat_view]);
            },
            None => {
                statements.push(repeat);
                assert(stmt_views(statements@) =~= seq![repeat_view]);
            },
        }
        proof {
            block_view(statements);
        }
        Stmt::Block { statements }
    }

    /// Reads the parameters of a function, up to its ")".
    fn parameters(&mut self) -> (result: Result<Vec<Token>, ParseError>)
        requires
            old(self).well_formed(),
        ensures
            final(self).well_formed(),
            final(self).tokens == old(self).tokens,
            old(self).current <= final(self).current,
            agrees_tokens(
                parameters(old(self).tokens(), old(self).current as int),
                result,
                old(self).current as int,
                final(self).current as int,
            ),
    {
        let mut params: Vec<Token> = Vec::new();
        assert(token_views(params@) =~= Seq::empty());
        if self.check(TokenType::RightParen) {
            return Ok(params);
        }
        let ghost goal = parameter_list(old(self).tokens(), old(self).current as int, Seq::empty());
        loop
            invariant
                self.well_formed(),
                self.tokens == old(self).tokens,
                old(self).current <= self.current,
                parameter_list(self.tokens(), self.current as int, token_views(params@)).after(
                    (self.current - old(self).current) as nat,
                ) == goal,
                goal == parameter_list(old(self).tokens(), old(self).current as int, Seq::empty()),
                kind_at(old(self).tokens(), old(self).current as int) != TokenType::RightParen,
            decreases remaining(self.tokens(), self.current as int),
        {
            let ghost at = self.current as int;
            let ghost found = token_views(params@);
            let ghost rest = parameter_list(self.tokens(), at, found);
            if params.len() >= MAX_ARITY {
                assert(rest is Failed);
                return Err(ParseError::TooManyParameters { line: self.line() });
            }
            match self.consume(TokenType::Identifier) {
                Ok(name) => {
                    params.push(name);
                    assert(token_views(params@) =~= found.push(name@));
                },
                Err(error) => {
                    assert(rest == Outcome::<Seq<TokenView>>::Failed(error));
                    return Err(error);
                },
            }
            if !self.match_token(TokenType::Comma) {
                assert(rest == (Outcome::Parsed { value: token_views(params@), consumed: 1 }));
                return Ok(params);
            }
            assert(rest == parameter_list(self.tokens(), self.current as int, token_views(params@)).after(
                2,
            ));
        }
    }

    fn while_statement(&mut self) -> (result: Result<Stmt, ParseError>)
        requires
            old(self).well_formed(),
        ensures
            final(self).well_formed(),
            final(self).tokens == old(self).tokens,
            old(self).current <= final(self).current,
            agrees_stmt(
                while_statement(old(self).tokens(), old(self).current as int),
                result,
                old(self).current as int,
                final(self).current as int,
            ),
        decreases remaining(old(self).tokens(), old(self).current as int), 10int,
    {
        match self.consume(TokenType::LeftParen) {
            Ok(_) => {},
            Err(error) => {
                return Err(error);
            },
        }
        let condition = match self.terminated(TokenType::RightParen) {
            Ok(condition) => condition,
            Err(error) => {
                return Err(error);
            },
        };
        match self.statement() {
            Ok(body) => Ok(Stmt::While { condition: Box::new(condition), body: Box::new(body) }),
            Err(error) => Err(error),
        }
    }

    fn else_branch(&mut self) -> (result: Result<Option<Stmt>, ParseError>)
        requires
            old(self).well_formed(),
        ensures
            final(self).well_formed(),
            final(self).tokens == old(self).tokens,
            old(self).current <= final(self).current,
            agrees_optional_stmt(
                else_branch(old(self).tokens(), old(self).current as int),
                result,
                old(self).current as int,
                final(self).current as int,
            ),
        decreases remaining(old(self).tokens(), old(self).current as int), 10int,
    {
        if self.match_token(TokenType::Else) {
            match self.statement() {
                Ok(stmt) => Ok(Some(stmt)),
                Err(error) => Err(error),
            }
        } else {
            Ok(None)
        }
    }

    fn if_statement(&mut self) -> (result: Result<Stmt, ParseError>)
        requires
            old(self).well_formed(),
        ensures
            final(self).well_formed(),
            final(self).tokens == old(self).tokens,
            old(self).current <= final(self).current,
            agrees_stmt(
                if_statement(old(self).tokens(), old(self).current as int),
                result,
                old(self).current as int,
                final(self).current as int,
            ),
        decreases remaining(old(self).tokens(), old(self).current as int), 11int,
    {
        match self.consume(TokenType::LeftParen) {
            Ok(_) => {},
            Err(error) => {
                return Err(error);
            },
        }
        let condition = match self.terminated(TokenType::RightParen) {
            Ok(condition) => condition,
            Err(error) => {
                return Err(error);
            },
        };
        let then_branch = match self.statement() {
            Ok(stmt) => stmt,
            Err(error) => {
                return Err(error);
            },
        };
        match self.else_branch() {
            Ok(otherwise) => Ok(
                Stmt::If {
                    condition: Box::new(condition),
                    then_branch: Box::new(then_branch),
                    else_branch: Box::new(otherwise),
                },
            ),
            Err(error) => Err(error),
        }
    }

    fn for_statement(&mut self) -> (result: Result<Stmt, ParseError>)
        requires
            old(self).well_formed(),
        ensures
            final(self).well_formed(),
            final(self).tokens == old(self).tokens,
            old(self).current <= final(self).current,
            agrees_stmt(
                for_statement(old(self).tokens(), old(self).current as int),
                result,
                old(self).current as int,
                final(self).current as int,
            ),
        decreases remaining(old(self).tokens(), old(self).current as int), 10int,
    {
        match self.consume(TokenType::LeftParen) {
            Ok(_) => {},
            Err(error) => {
                return Err(error);
            },
        }
        let initializer = match self.for_initializer() {
            Ok(initializer) => initializer,
            Err(error) => {
                return Err(error);
            },
        };
        let condition = match self.clause(TokenType::Semicolon) {
            Ok(condition) => condition,
            Err(error) => {
                return Err(error);
            },
        };
        let increment = match self.clause(TokenType::RightParen) {
            Ok(increment) => increment,
            Err(error) => {
                return Err(error);
            },
        };
        match self.statement() {
            Ok(body) => Ok(Self::desugar(initializer, condition, increment, body)),
            Err(error) => Err(error),
        }
    }

    /// Reads the declarations of a block and its "}".
    fn block(&mut self) -> (result: Result<Vec<Stmt>, ParseError>)
        requires
            old(self).well_formed(),
        ensures
            final(self).well_formed(),
            final(self).tokens == old(self).tokens,
            old(self).current <= final(self).current,
            agrees_stmts(
                block(old(self).tokens(), old(self).current as int),
                result,
                old(self).current as int,
                final(self).current as int,
            ),
        decreases remaining(old(self).tokens(), old(self).current as int), 4int,
    {
        match self.declarations(true) {
            Ok(statements) => match self.consume(TokenType::RightBrace) {
                Ok(_) => Ok(statements),
                Err(error) => Err(error),
            },
            Err(error) => Err(error),
        }
    }

    fn statement(&mut self) -> (result: Result<Stmt, ParseError>)
        requires
            old(self).well_formed(),
        ensures
            final(self).well_formed(),
            final(self).tokens == old(self).tokens,
            old(self).current <= final(self).current,
            agrees_stmt(
                statement(old(self).tokens(), old(self).current as int),
                result,
                old(self).current as int,
                final(self).current as int,
            ),
        decreases remaining(old(self).tokens(), old(self).current as int), 1int,
    {
        match self.kind() {
            TokenType::For => {
                self.skip();
                self.for_statement()
            },
            TokenType::If => {
                self.skip();
                self.if_statement()
            },
            TokenType::Print => {
                self.skip();
                self.print_statement()
            },
            TokenType::Return => {
                let keyword = self.advance();
                self.return_statement(keyword)
            },
            TokenType::While => {
                self.skip();
                self.while_statement()
            },
            TokenType::LeftBrace => {
                self.skip();
                match self.block() {
                    Ok(statements) => {
                        proof {
                            block_view(statements);
                        }
                        Ok(Stmt::Block { statements })
                    },
                    Err(error) => Err(error),
                }
            },
            _ => self.expression_statement(),
        }
    }

    fn function(&mut self) -> (result: Result<Stmt, ParseError>)
        requires
            old(self).well_formed(),
        ensures
            final(self).well_formed(),
            final(self).tokens == old(self).tokens,
            old(self).current <= final(self).current,
            agrees_stmt(
                function(old(self).tokens(), old(self).current as int),
                result,
                old(self).current as int,
                final(self).current as int,
            ),
        decreases remaining(old(self).tokens(), old(self).current as int), 10int,
    {
        let name = match self.consume(TokenType::Identifier) {
            Ok(name) => name,
            Err(error) => {
                return Err(error);
            },
        };
        match self.consume(TokenType::LeftParen) {
            Ok(_) => {},
            Err(error) => {
                return Err(error);
            },
        }
        let params = match self.parameters() {
            Ok(params) => params,
            Err(error) => {
                return Err(error);
            },
        };
        match self.consume(TokenType::RightParen) {
            Ok(_) => {},
            Err(error) => {
                return Err(error);
            },
        }
        match self.consume(TokenType::LeftBrace) {
            Ok(_) => {},
            Err(error) => {
                return Err(error);
            },
        }
        match self.block() {
            Ok(body) => {
                proof {
                    function_view(name, params, body);
                }
                Ok(Stmt::Function { name, params, body })
            },
            Err(error) => Err(error),
        }
    }

    fn declaration(&mut self) -> (result: Result<Stmt, ParseError>)
        requires
            old(self).well_formed(),
        ensures
            final(self).well_formed(),
            final(self).tokens == old(self).tokens,
            old(self).current <= final(self).current,
            agrees_stmt(
                declaration(old(self).tokens(), old(self).current as int),
                result,
                old(self).current as int,
                final(self).current as int,
            ),
        decreases remaining(old(self).tokens(), old(self).current as int), 2int,
    {
        match self.kind() {
            TokenType::Fun => {
                self.skip();
                self.function()
            },
            TokenType::Var => {
                self.skip();
                self.var_declaration()
            },
            _ => self.statement(),
        }
    }

    /// Reads declarations up to the end of the list: the end of the tokens,
    /// and inside a block also "}".
    fn declarations(&mut self, nested: bool) -> (result: Result<Vec<Stmt>, ParseError>)
        requires
            old(self).well_formed(),
        ensures
            final(self).well_formed(),
            final(self).tokens == old(self).tokens,
            old(self).current <= final(self).current,
            agrees_stmts(
                declarations(old(self).tokens(), old(self).current as int, Seq::empty(), nested),
                result,
                old(self).current as int,
                final(self).current as int,
            ),
        decreases remaining(old(self).tokens(), old(self).current as int), 3int,
    {
        let mut statements: Vec<Stmt> = Vec::new();
        assert(stmt_views(statements@) =~= Seq::empty());
        let ghost goal = declarations(old(self).tokens(), old(self).current as int, Seq::empty(), nested);
        while !(self.is_at_end() || (nested && self.check(TokenType::RightBrace)))
            invariant
                self.well_formed(),
                self.tokens == old(self).tokens,
                old(self).current <= self.current,
                declarations(self.tokens(), self.current as int, stmt_views(statements@), nested).after(
                    (self.current - old(self).current) as nat,
                ) == goal,
                goal == declarations(old(self).tokens(), old(self).current as int, Seq::empty(), nested),
            decreases remaining(self.tokens(), self.current as int),
        {
            let ghost at = self.current as int;
            let ghost found = stmt_views(statements@);
            let ghost rest = declarations(self.tokens(), at, found, nested);
            proof {
                declaration_advances(self.tokens(), at);
            }
            match self.declaration() {
                Ok(stmt) => {
                    statements.push(stmt);
                    assert(stmt_views(statements@) =~= found.push(stmt@));
                },
                Err(error) => {
                    assert(rest == Outcome::<Seq<StmtView>>::Failed(error));
                    return Err(error);
                },
            }
            assert(rest == declarations(self.tokens(), self.current as int, stmt_views(statements@), nested).after(
                (self.current - at) as nat,
            ));
        }
        Ok(statements)
    }

    /// Parses the tokens from the current position on as a program: a
    /// sequence of declarations up to the end of the tokens. The first
    /// error ends the parse.
    pub fn parse(&mut self) -> (result: Result<Vec<Stmt>, ParseError>)
        requires
            old(self).well_formed(),
        ensures
            final(self).well_formed(),
            final(self).tokens() == old(self).tokens(),
            agrees_stmts(
                declarations(old(self).tokens(), old(self).position(), Seq::empty(), false),
                result,
                old(self).position(),
                final(self).position(),
            ),
    {
        self.declarations(false)
    }
}

/// A declaration that parses is read from at least one token.
pub proof fn declaration_advances(tokens: Seq<TokenView>, at: int)
    ensures
        match declaration(tokens, at) {
            Outcome::Parsed { value, consumed } => consumed >= 1,
            Outcome::Failed(_) => true,
        },
{
}

/// A list of declarations that parses is read up to its end: up to the end
/// of the tokens, or inside a block up to its "}".
pub proof fn declarations_reach_the_end(tokens: Seq<TokenView>, at: int, found: Seq<StmtView>, nested: bool)
    ensures
        match declarations(tokens, at, found, nested) {
            Outcome::Parsed { value, consumed } => {
                &&& ends_list(tokens, at + consumed, nested)
                &&& found.len() <= value.len()
                &&& value.subrange(0, found.len() as int) == found
            },
            Outcome::Failed(_) => true,
        },
    decreases remaining(tokens, at), 3int,
{
    if !ends_list(tokens, at, nested) {
        match declaration(tokens, at) {
            Outcome::Parsed { value, consumed } => {
                if consumed > 0 {
                    declarations_reach_the_end(tokens, at + consumed, found.push(value), nested);
                    match declarations(tokens, at + consumed, found.push(value), nested) {
                        Outcome::Parsed { value: all, consumed: more } => {
                            assert(all.subrange(0, found.len() as int) =~= all.subrange(
                                0,
                                found.len() as int + 1,
                            ).subrange(0, found.len() as int));
                            assert(found.push(value).subrange(0, found.len() as int) =~= found);
                        },
                        Outcome::Failed(_) => {},
                    }
                }
            },
            Outcome::Failed(_) => {},
        }
    } else {
        assert(found.subrange(0, found.len() as int) =~= found);
    }
}

/// A token sequence that is a program is one from its first token to the
/// `Eof` that ends it: nothing is left unread.
pub proof fn program_reads_all_tokens(tokens: Seq<TokenView>)
    ensures
        match program(tokens) {
            Outcome::Parsed { value, consumed } => kind_at(tokens, consumed as int) == TokenType::Eof,
            Outcome::Failed(_) => true,
        },
{
    declarations_reach_the_end(tokens, 0, Seq::empty(), false);
}

/// Whether no call in the expression passes more than 255 arguments.
pub open spec fn expr_within_limits(expr: ExprView) -> bool
    decreases expr,
{
    match expr {
        ExprView::Assign { name, value } => expr_within_limits(*value),
        ExprView::Variable { name } => true,
        ExprView::Unary { right, operator } => expr_within_limits(*right),
        ExprView::Binary { left, operator, right } => expr_within_limits(*left) && expr_within_limits(
            *right,
        ),
        ExprView::Grouping { expr } => expr_within_limits(*expr),
        ExprView::Literal { value } => true,
        ExprView::Logical { left, right, operator } => expr_within_limits(*left)
            && expr_within_limits(*right),
        ExprView::Call { callee, paren, arguments } => {
            &&& expr_within_limits(*callee)
            &&& arguments.len() <= MAX_ARITY
            &&& forall|i: int| 0 <= i < arguments.len() ==> expr_within_limits(#[trigger] arguments[i])
        },
    }
}

/// Whether no function in the statement declares more than 255 parameters,
/// and no call in it passes more than 255 arguments.
pub open spec fn stmt_within_limits(stmt: StmtView) -> bool
    decreases stmt,
{
    match stmt {
        StmtView::Expression { expr } => expr_within_limits(*expr),
        StmtView::Print { expr } => expr_within_limits(*expr),
        StmtView::Var { name, initializer } => match initializer {
            Some(expr) => expr_within_limits(expr),
            None => true,
        },
        StmtView::Block { statements } => forall|i: int|
            0 <= i < statements.len() ==> stmt_within_limits(#[trigger] statements[i]),
        StmtView::If { condition, then_branch, else_branch } => {
            &&& expr_within_limits(*condition)
            &&& stmt_within_limits(*then_branch)
            &&& match *else_branch {
                Some(stmt) => stmt_within_limits(stmt),
                None => true,
            }
        },
        StmtView::While { condition, body } => expr_within_limits(*condition) && stmt_within_limits(
            *body,
        ),
        StmtView::Function { name, params, body } => {
            &&& params.len() <= MAX_ARITY
            &&& forall|i: int| 0 <= i < body.len() ==> stmt_within_limits(#[trigger] body[i])
        },
        StmtView::Return { keyword, value } => match *value {
            Some(expr) => expr_within_limits(expr),
            None => true,
        },
    }
}

/// Whether what was parsed, if anything, keeps the limits.
pub open spec fn expr_kept(outcome: Outcome<ExprView>) -> bool {
    match outcome {
        Outcome::Parsed { value, consumed } => expr_within_limits(value),
        Outcome::Failed(_) => true,
    }
}

pub open spec fn stmt_kept(outcome: Outcome<StmtView>) -> bool {
    match outcome {
        Outcome::Parsed { value, consumed } => stmt_within_limits(value),
        Outcome::Failed(_) => true,
    }
}

pub open spec fn exprs_kept(outcome: Outcome<Seq<ExprView>>) -> bool {
    match outcome {
        Outcome::Parsed { value, consumed } => value.len() <= MAX_ARITY && forall|i: int|
            0 <= i < value.len() ==> expr_within_limits(#[trigger] value[i]),
        Outcome::Failed(_) => true,
    }
}

pub open spec fn stmts_kept(outcome: Outcome<Seq<StmtView>>) -> bool {
    match outcome {
        Outcome::Parsed { value, consumed } => forall|i: int|
            0 <= i < value.len() ==> stmt_within_limits(#[trigger] value[i]),
        Outcome::Failed(_) => true,
    }
}

proof fn lemma_primary_limits(tokens: Seq<TokenView>, at: int)
    ensures
        expr_kept(primary(tokens, at)),
    decreases remaining(tokens, at), 2int,
{
    if kind_at(tokens, at) == TokenType::LeftParen {
        lemma_expression_limits(tokens, at + 1);
    }
}

proof fn lemma_argument_list_limits(tokens: Seq<TokenView>, at: int, found: Seq<ExprView>)
    requires
        forall|i: int| 0 <= i < found.len() ==> expr_within_limits(#[trigger] found[i]),
    ensures
        exprs_kept(argument_list(tokens, at, found)),
    decreases remaining(tokens, at), 20int,
{
    if found.len() < MAX_ARITY {
        lemma_expression_limits(tokens, at);
        match expression(tokens, at) {
            Outcome::Parsed { value, consumed } => {
                if kind_at(tokens, at + consumed) == TokenType::Comma {
                    lemma_argument_list_limits(tokens, at + consumed + 1, found.push(value));
                }
            },
            Outcome::Failed(_) => {},
        }
    }
}

proof fn lemma_call_rest_limits(tokens: Seq<TokenView>, at: int, callee: ExprView)
    requires
        expr_within_limits(callee),
    ensures
        expr_kept(call_rest(tokens, at, callee)),
    decreases remaining(tokens, at), 0int,
{
    if kind_at(tokens, at) == TokenType::LeftParen {
        let arguments = if kind_at(tokens, at + 1) == TokenType::RightParen {
            Outcome::Parsed { value: Seq::<ExprView>::empty(), consumed: 0 }
        } else {
            argument_list(tokens, at + 1, Seq::empty())
        };
        if kind_at(tokens, at + 1) != TokenType::RightParen {
            lemma_argument_list_limits(tokens, at + 1, Seq::empty());
        }
        match arguments {
            Outcome::Parsed { value, consumed } => {
                if kind_at(tokens, at + 1 + consumed) == TokenType::RightParen {
                    lemma_call_rest_limits(
                        tokens,
                        at + 2 + consumed,
                        ExprView::Call {
                            callee: Box::new(callee),
                            paren: tokens[at + 1 + consumed],
                            arguments: value,
                        },
                    );
                }
            },
            Outcome::Failed(_) => {},
        }
    }
}

proof fn lemma_call_limits(tokens: Seq<TokenView>, at: int)
    ensures
        expr_kept(call(tokens, at)),
    decreases remaining(tokens, at), 3int,
{
    lemma_primary_limits(tokens, at);
    match primary(tokens, at) {
        Outcome::Parsed { value, consumed } => {
            lemma_call_rest_limits(tokens, at + consumed, value);
        },
        Outcome::Failed(_) => {},
    }
}

proof fn lemma_unary_limits(tokens: Seq<TokenView>, at: int)
    ensures
        expr_kept(unary(tokens, at)),
    decreases remaining(tokens, at), 4int,
{
    if kind_at(tokens, at) == TokenType::Bang || kind_at(tokens, at) == TokenType::Minus {
        lemma_unary_limits(tokens, at + 1);
    } else {
        lemma_call_limits(tokens, at);
    }
}

proof fn lemma_operand_limits(tokens: Seq<TokenView>, at: int, level: u8)
    ensures
        expr_kept(operand(tokens, at, level)),
    decreases remaining(tokens, at), 5int + 2 * level,
{
    if level == FACTOR {
        lemma_unary_limits(tokens, at);
    } else {
        lemma_infix_limits(tokens, at, (level - 1) as u8);
    }
}

proof fn lemma_infix_rest_limits(tokens: Seq<TokenView>, at: int, level: u8, left: ExprView)
    requires
        expr_within_limits(left),
    ensures
        expr_kept(infix_rest(tokens, at, level, left)),
    decreases remaining(tokens, at), 0int,
{
    if 0 <= at < tokens.len() && is_operator(level, kind_at(tokens, at)) {
        lemma_operand_limits(tokens, at + 1, level);
        match operand(tokens, at + 1, level) {
            Outcome::Parsed { value, consumed } => {
                lemma_infix_rest_limits(
                    tokens,
                    at + 1 + consumed,
                    level,
                    join(level, left, tokens[at], value),
                );
            },
            Outcome::Failed(_) => {},
        }
    }
}

proof fn lemma_infix_limits(tokens: Seq<TokenView>, at: int, level: u8)
    ensures
        expr_kept(infix(tokens, at, level)),
    decreases remaining(tokens, at), 6int + 2 * level,
{
    lemma_operand_limits(tokens, at, level);
    match operand(tokens, at, level) {
        Outcome::Parsed { value, consumed } => {
            lemma_infix_rest_limits(tokens, at + consumed, level, value);
        },
        Outcome::Failed(_) => {},
    }
}

proof fn lemma_assignment_limits(tokens: Seq<TokenView>, at: int)
    ensures
        expr_kept(assignment(tokens, at)),
    decreases remaining(tokens, at), 18int,
{
    lemma_infix_limits(tokens, at, LOGIC_OR);
    match infix(tokens, at, LOGIC_OR) {
        Outcome::Parsed { value, consumed } => {
            if kind_at(tokens, at + consumed) == TokenType::Equal {
                lemma_assignment_limits(tokens, at + consumed + 1);
            }
        },
        Outcome::Failed(_) => {},
    }
}

proof fn lemma_expression_limits(tokens: Seq<TokenView>, at: int)
    ensures
        expr_kept(expression(tokens, at)),
    decreases remaining(tokens, at), 19int,
{
    lemma_assignment_limits(tokens, at);
}

proof fn lemma_parameter_list_limits(tokens: Seq<TokenView>, at: int, found: Seq<TokenView>)
    ensures
        match parameter_list(tokens, at, found) {
            Outcome::Parsed { value, consumed } => value.len() <= MAX_ARITY,
            Outcome::Failed(_) => true,
        },
    decreases remaining(tokens, at),
{
    if found.len() < MAX_ARITY && kind_at(tokens, at) == TokenType::Identifier && kind_at(
        tokens,
        at + 1,
    ) == TokenType::Comma {
        lemma_parameter_list_limits(tokens, at + 2, found.push(tokens[at]));
    }
}

/// The statements that hold expressions and no statements keep the limits.
proof fn lemma_simple_statement_limits(tokens: Seq<TokenView>, at: int, keyword: TokenView)
    ensures
        stmt_kept(expression_statement(tokens, at)),
        stmt_kept(print_statement(tokens, at)),
        stmt_kept(return_statement(tokens, at, keyword)),
        stmt_kept(var_declaration(tokens, at)),
        match for_initializer(tokens, at) {
            Outcome::Parsed { value: Some(stmt), consumed } => stmt_within_limits(stmt),
            _ => true,
        },
        match clause(tokens, at, TokenType::Semicolon) {
            Outcome::Parsed { value: Some(expr), consumed } => expr_within_limits(expr),
            _ => true,
        },
        match clause(tokens, at, TokenType::RightParen) {
            Outcome::Parsed { value: Some(expr), consumed } => expr_within_limits(expr),
            _ => true,
        },
        expr_kept(terminated(tokens, at, TokenType::RightParen)),
{
    lemma_expression_limits(tokens, at);
    lemma_expression_limits(tokens, at + 1);
    lemma_expression_limits(tokens, at + 2);
    lemma_expression_limits(tokens, at + 3);
}

proof fn lemma_desugar_limits(
    initializer: Option<StmtView>,
    condition: Option<ExprView>,
    increment: Option<ExprView>,
    body: StmtView,
)
    requires
        initializer matches Some(stmt) ==> stmt_within_limits(stmt),
        condition matches Some(expr) ==> expr_within_limits(expr),
        increment matches Some(expr) ==> expr_within_limits(expr),
        stmt_within_limits(body),
    ensures
        stmt_within_limits(desugar(initializer, condition, increment, body)),
{
    let turn = match increment {
        Some(expr) => seq![body, StmtView::Expression { expr: Box::new(expr) }],
        None => seq![body],
    };
    assert forall|i: int| 0 <= i < turn.len() implies stmt_within_limits(#[trigger] turn[i]) by {
        if i == 1 {
            assert(turn[1] == StmtView::Expression { expr: Box::new(increment->Some_0) });
        }
    }
    let round = StmtView::Block { statements: turn };
    assert(stmt_within_limits(round));
    let repeat = StmtView::While {
        condition: Box::new(
            match condition {
                Some(expr) => expr,
                None => ExprView::Literal { value: ObjectView::Boolean(true) },
            },
        ),
        body: Box::new(round),
    };
    assert(stmt_within_limits(repeat));
    let all = match initializer {
        Some(first) => seq![first, repeat],
        None => seq![repeat],
    };
    assert forall|i: int| 0 <= i < all.len() implies stmt_within_limits(#[trigger] all[i]) by {}
    assert(desugar(initializer, condition, increment, body) == StmtView::Block { statements: all });
}

proof fn lemma_while_limits(tokens: Seq<TokenView>, at: int)
    ensures
        stmt_kept(while_statement(tokens, at)),
    decreases remaining(tokens, at), 10int,
{
    if kind_at(tokens, at) == TokenType::LeftParen {
        lemma_simple_statement_limits(tokens, at + 1, tokens[at]);
        match terminated(tokens, at + 1, TokenType::RightParen) {
            Outcome::Parsed { value, consumed } => {
                lemma_statement_limits(tokens, at + 1 + consumed);
            },
            Outcome::Failed(_) => {},
        }
    }
}

proof fn lemma_else_limits(tokens: Seq<TokenView>, at: int)
    ensures
        match else_branch(tokens, at) {
            Outcome::Parsed { value: Some(stmt), consumed } => stmt_within_limits(stmt),
            _ => true,
        },
    decreases remaining(tokens, at), 10int,
{
    if kind_at(tokens, at) == TokenType::Else {
        lemma_statement_limits(tokens, at + 1);
    }
}

proof fn lemma_if_limits(tokens: Seq<TokenView>, at: int)
    ensures
        stmt_kept(if_statement(tokens, at)),
    decreases remaining(tokens, at), 11int,
{
    if kind_at(tokens, at) == TokenType::LeftParen {
        lemma_simple_statement_limits(tokens, at + 1, tokens[at]);
        match terminated(tokens, at + 1, TokenType::RightParen) {
            Outcome::Parsed { value, consumed } => {
                lemma_statement_limits(tokens, at + 1 + consumed);
                match statement(tokens, at + 1 + consumed) {
                    Outcome::Parsed { value: then_branch, consumed: more } => {
                        lemma_else_limits(tokens, at + 1 + consumed + more);
                    },
                    Outcome::Failed(_) => {},
                }
            },
            Outcome::Failed(_) => {},
        }
    }
}

proof fn lemma_for_limits(tokens: Seq<TokenView>, at: int)
    ensures
        stmt_kept(for_statement(tokens, at)),
    decreases remaining(tokens, at), 10int,
{
    if kind_at(tokens, at) == TokenType::LeftParen {
        lemma_simple_statement_limits(tokens, at + 1, tokens[at]);
        lemma_simple_statement_limits(tokens, at + 2, tokens[at]);
        match for_initializer(tokens, at + 1) {
            Outcome::Parsed { value: initializer, consumed: first } => {
                lemma_simple_statement_limits(tokens, at + 1 + first, tokens[at]);
                match clause(tokens, at + 1 + first, TokenType::Semicolon) {
                    Outcome::Parsed { value: condition, consumed: second } => {
                        lemma_simple_statement_limits(tokens, at + 1 + first + second, tokens[at]);
                        match clause(tokens, at + 1 + first + second, TokenType::RightParen) {
                            Outcome::Parsed { value: increment, consumed: third } => {
                                lemma_statement_limits(tokens, at + 1 + first + second + third);
                                match statement(tokens, at + 1 + first + second + third) {
                                    Outcome::Parsed { value: body, consumed: last } => {
                                        lemma_desugar_limits(initializer, condition, increment, body);
                                    },
                                    Outcome::Failed(_) => {},
                                }
                            },
                            Outcome::Failed(_) => {},
                        }
                    },
                    Outcome::Failed(_) => {},
                }
            },
            Outcome::Failed(_) => {},
        }
    }
}

proof fn lemma_block_limits(tokens: Seq<TokenView>, at: int)
    ensures
        stmts_kept(block(tokens, at)),
    decreases remaining(tokens, at), 4int,
{
    lemma_declarations_limits(tokens, at, Seq::empty(), true);
}

proof fn lemma_statement_limits(tokens: Seq<TokenView>, at: int)
    ensures
        stmt_kept(statement(tokens, at)),
    decreases remaining(tokens, at), 1int,
{
    match kind_at(tokens, at) {
        TokenType::For => lemma_for_limits(tokens, at + 1),
        TokenType::If => lemma_if_limits(tokens, at + 1),
        TokenType::Print => lemma_simple_statement_limits(tokens, at + 1, tokens[at]),
        TokenType::Return => lemma_simple_statement_limits(tokens, at + 1, tokens[at]),
        TokenType::While => lemma_while_limits(tokens, at + 1),
        TokenType::LeftBrace => lemma_block_limits(tokens, at + 1),
        _ => lemma_simple_statement_limits(tokens, at, tokens[at]),
    }
}

proof fn lemma_function_limits(tokens: Seq<TokenView>, at: int)
    ensures
        stmt_kept(function(tokens, at)),
    decreases remaining(tokens, at), 10int,
{
    if kind_at(tokens, at) == TokenType::Identifier && kind_at(tokens, at + 1) == TokenType::LeftParen {
        if kind_at(tokens, at + 2) != TokenType::RightParen {
            lemma_parameter_list_limits(tokens, at + 2, Seq::empty());
        }
        match parameters(tokens, at + 2) {
            Outcome::Parsed { value: params, consumed } => {
                if kind_at(tokens, at + 2 + consumed) == TokenType::RightParen && kind_at(
                    tokens,
                    at + 3 + consumed,
                ) == TokenType::LeftBrace {
                    lemma_block_limits(tokens, at + 4 + consumed);
                }
            },
            Outcome::Failed(_) => {},
        }
    }
}

proof fn lemma_declaration_limits(tokens: Seq<TokenView>, at: int)
    ensures
        stmt_kept(declaration(tokens, at)),
    decreases remaining(tokens, at), 2int,
{
    match kind_at(tokens, at) {
        TokenType::Fun => lemma_function_limits(tokens, at + 1),
        TokenType::Var => lemma_simple_statement_limits(tokens, at + 1, tokens[at]),
        _ => lemma_statement_limits(tokens, at),
    }
}

proof fn lemma_declarations_limits(tokens: Seq<TokenView>, at: int, found: Seq<StmtView>, nested: bool)
    requires
        forall|i: int| 0 <= i < found.len() ==> stmt_within_limits(#[trigger] found[i]),
    ensures
        stmts_kept(declarations(tokens, at, found, nested)),
    decreases remaining(tokens, at), 3int,
{
    if !ends_list(tokens, at, nested) {
        lemma_declaration_limits(tokens, at);
        match declaration(tokens, at) {
            Outcome::Parsed { value, consumed } => {
                if consumed > 0 {
                    lemma_declarations_limits(tokens, at + consumed, found.push(value), nested);
                }
            },
            Outcome::Failed(_) => {},
        }
    }
}

/// The limits hold of every program that parses: no function of it declares
/// more than 255 parameters, no call in it passes more than 255 arguments.
pub proof fn programs_keep_the_limits(tokens: Seq<TokenView>)
    ensures
        stmts_kept(program(tokens)),
{
    lemma_declarations_limits(tokens, 0, Seq::empty(), false);
}

} // verus!
