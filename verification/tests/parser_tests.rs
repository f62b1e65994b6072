use rlox::expr::Expr;
use rlox::object::Object;
use rlox::parser::{ParseError, Parser};
use rlox::rlox::RLox;
use rlox::scanner::Scanner;
use rlox::stmt::Stmt;
use rlox::token::Token;
use rlox::token_type::TokenType;

fn tokens_of(source: &str) -> Vec<Token> {
    let mut rlox = RLox::new();
    let mut scanner = Scanner::new(source.to_string());
    let tokens = scanner.scan_tokens(&mut rlox);
    assert!(!rlox.had_error());
    tokens
}

fn parse(source: &str) -> Result<Vec<Stmt>, ParseError> {
    Parser::new(tokens_of(source)).parse()
}

fn expression_of(source: &str) -> Expr {
    let mut program = parse(source).unwrap();
    assert_eq!(program.len(), 1);
    match program.remove(0) {
        Stmt::Expression { expr } => *expr,
        other => panic!("not an expression statement: {:?}", other),
    }
}

fn token(token_type: TokenType, lexeme: &str, line: usize) -> Token {
    Token::new(token_type, lexeme.to_string(), Object::Null, line)
}

fn number(numeral: &str, line: usize) -> Expr {
    let _ = line;
    Expr::Literal { value: Object::Number(numeral.to_string()) }
}

#[test]
fn test_parse_primary_expression() {
    let tokens: Vec<Token> = vec![
        Token::new(TokenType::String, "some string".to_string(), Object::String("some string".to_string()), 1),
        Token::new(TokenType::Eof, "".to_string(), Object::Null, 1),
    ];
    let mut parser: Parser = Parser::new(tokens);
    let result = parser.parse();
    println!("[RESULT]: {:?}", result);
}

#[test]
fn primary_string_statement_needs_semicolon() {
    let tokens: Vec<Token> = vec![
        Token::new(TokenType::String, "some string".to_string(), Object::String("some string".to_string()), 1),
        Token::new(TokenType::Eof, "".to_string(), Object::Null, 1),
    ];
    assert_eq!(
        Parser::new(tokens).parse(),
        Err(ParseError::Expected { expected: TokenType::Semicolon, line: 1 })
    );
}

#[test]
fn primary_string_statement_parses() {
    let tokens: Vec<Token> = vec![
        Token::new(TokenType::String, "some string".to_string(), Object::String("some string".to_string()), 1),
        Token::new(TokenType::Semicolon, ";".to_string(), Object::Null, 1),
        Token::new(TokenType::Eof, "".to_string(), Object::Null, 1),
    ];
    assert_eq!(
        Parser::new(tokens).parse(),
        Ok(vec![Stmt::Expression {
            expr: Box::new(Expr::Literal { value: Object::String("some string".to_string()) })
        }])
    );
}

#[test]
fn empty_token_sequence_is_the_empty_program() {
    assert_eq!(Parser::new(Vec::new()).parse(), Ok(Vec::new()));
    assert_eq!(parse(""), Ok(Vec::new()));
}

#[test]
fn factor_binds_tighter_than_term() {
    // -1 + 2 * 3  is  (-1) + (2 * 3)
    let expected = Expr::Binary {
        left: Box::new(Expr::Unary {
            right: Box::new(number("1", 1)),
            operator: token(TokenType::Minus, "-", 1),
        }),
        operator: token(TokenType::Plus, "+", 1),
        right: Box::new(Expr::Binary {
            left: Box::new(number("2", 1)),
            operator: token(TokenType::Star, "*", 1),
            right: Box::new(number("3", 1)),
        }),
    };
    assert_eq!(expression_of("-1 + 2 * 3;"), expected);
}

#[test]
fn binary_operators_associate_to_the_left() {
    let expected = Expr::Binary {
        left: Box::new(Expr::Binary {
            left: Box::new(number("1", 1)),
            operator: token(TokenType::Minus, "-", 1),
            right: Box::new(number("2", 1)),
        }),
        operator: token(TokenType::Minus, "-", 1),
        right: Box::new(number("3", 1)),
    };
    assert_eq!(expression_of("1 - 2 - 3;"), expected);
}

#[test]
fn comparison_and_equality_levels() {
    let expected = Expr::Binary {
        left: Box::new(Expr::Binary {
            left: Box::new(number("1", 1)),
            operator: token(TokenType::Less, "<", 1),
            right: Box::new(number("2", 1)),
        }),
        operator: token(TokenType::EqualEqual, "==", 1),
        right: Box::new(Expr::Literal { value: Object::Boolean(true) }),
    };
    assert_eq!(expression_of("1 < 2 == true;"), expected);
}

#[test]
fn logical_operators_build_logical_nodes() {
    // a or b and c  is  a or (b and c)
    let variable = |name: &str| Expr::Variable { name: token(TokenType::Identifier, name, 1) };
    let expected = Expr::Logical {
        left: Box::new(variable("a")),
        right: Box::new(Expr::Logical {
            left: Box::new(variable("b")),
            right: Box::new(variable("c")),
            operator: token(TokenType::And, "and", 1),
        }),
        operator: token(TokenType::Or, "or", 1),
    };
    assert_eq!(expression_of("a or b and c;"), expected);
}

#[test]
fn assignment_associates_to_the_right() {
    let expected = Expr::Assign {
        name: token(TokenType::Identifier, "a", 1),
        value: Box::new(Expr::Assign {
            name: token(TokenType::Identifier, "b", 1),
            value: Box::new(number("1", 1)),
        }),
    };
    assert_eq!(expression_of("a = b = 1;"), expected);
}

#[test]
fn assignment_to_a_non_variable_is_rejected() {
    assert_eq!(parse("1 = 2;"), Err(ParseError::InvalidAssignmentTarget { line: 1 }));
    assert_eq!(parse("\n(a) = 2;"), Err(ParseError::InvalidAssignmentTarget { line: 2 }));
}

#[test]
fn grouping_and_nil() {
    let expected = Expr::Grouping { expr: Box::new(Expr::Literal { value: Object::Null }) };
    assert_eq!(expression_of("(nil);"), expected);
    assert_eq!(parse("(nil;"), Err(ParseError::Expected { expected: TokenType::RightParen, line: 1 }));
}

#[test]
fn calls_chain_to_the_left() {
    let expected = Expr::Call {
        callee: Box::new(Expr::Call {
            callee: Box::new(Expr::Variable { name: token(TokenType::Identifier, "f", 1) }),
            paren: token(TokenType::RightParen, ")", 1),
            arguments: vec![number("1", 1), number("2", 1)],
        }),
        paren: token(TokenType::RightParen, ")", 1),
        arguments: vec![],
    };
    assert_eq!(expression_of("f(1, 2)();"), expected);
}

#[test]
fn missing_expression_is_reported_with_its_line() {
    assert_eq!(parse("print ;"), Err(ParseError::ExpectedExpression { line: 1 }));
    assert_eq!(parse("var a = 1;\n}"), Err(ParseError::ExpectedExpression { line: 2 }));
    assert_eq!(parse("1 +"), Err(ParseError::ExpectedExpression { line: 1 }));
}

#[test]
fn var_declarations() {
    assert_eq!(
        parse("var a;"),
        Ok(vec![Stmt::Var { name: token(TokenType::Identifier, "a", 1), initializer: None }])
    );
    assert_eq!(
        parse("var a = 1;"),
        Ok(vec![Stmt::Var { name: token(TokenType::Identifier, "a", 1), initializer: Some(number("1", 1)) }])
    );
    assert_eq!(parse("var 1;"), Err(ParseError::Expected { expected: TokenType::Identifier, line: 1 }));
    assert_eq!(parse("var a 1;"), Err(ParseError::Expected { expected: TokenType::Semicolon, line: 1 }));
}

#[test]
fn if_with_and_without_else() {
    let print_one = Stmt::Print { expr: Box::new(number("1", 1)) };
    let print_two = Stmt::Print { expr: Box::new(number("2", 1)) };
    assert_eq!(
        parse("if (true) print 1; else print 2;"),
        Ok(vec![Stmt::If {
            condition: Box::new(Expr::Literal { value: Object::Boolean(true) }),
            then_branch: Box::new(print_one),
            else_branch: Box::new(Some(print_two)),
        }])
    );
    assert_eq!(
        parse("if (false) print 1;"),
        Ok(vec![Stmt::If {
            condition: Box::new(Expr::Literal { value: Object::Boolean(false) }),
            then_branch: Box::new(Stmt::Print { expr: Box::new(number("1", 1)) }),
            else_branch: Box::new(None),
        }])
    );
    assert_eq!(parse("if true) print 1;"), Err(ParseError::Expected { expected: TokenType::LeftParen, line: 1 }));
}

#[test]
fn while_and_block() {
    assert_eq!(
        parse("while (a) { a = false; }"),
        Ok(vec![Stmt::While {
            condition: Box::new(Expr::Variable { name: token(TokenType::Identifier, "a", 1) }),
            body: Box::new(Stmt::Block {
                statements: vec![Stmt::Expression {
                    expr: Box::new(Expr::Assign {
                        name: token(TokenType::Identifier, "a", 1),
                        value: Box::new(Expr::Literal { value: Object::Boolean(false) }),
                    })
                }]
            }),
        }])
    );
    assert_eq!(parse("{ print 1;"), Err(ParseError::Expected { expected: TokenType::RightBrace, line: 1 }));
}

#[test]
fn for_is_a_block_around_a_while() {
    let i = || Expr::Variable { name: token(TokenType::Identifier, "i", 1) };
    let expected = Stmt::Block {
        statements: vec![
            Stmt::Var { name: token(TokenType::Identifier, "i", 1), initializer: Some(number("0", 1)) },
            Stmt::While {
                condition: Box::new(Expr::Binary {
                    left: Box::new(i()),
                    operator: token(TokenType::Less, "<", 1),
                    right: Box::new(number("3", 1)),
                }),
                body: Box::new(Stmt::Block {
                    statements: vec![
                        Stmt::Print { expr: Box::new(i()) },
                        Stmt::Expression {
                            expr: Box::new(Expr::Assign {
                                name: token(TokenType::Identifier, "i", 1),
                                value: Box::new(Expr::Binary {
                                    left: Box::new(i()),
                                    operator: token(TokenType::Plus, "+", 1),
                                    right: Box::new(number("1", 1)),
                                }),
                            }),
                        },
                    ],
                }),
            },
        ],
    };
    assert_eq!(parse("for (var i=0; i<3; i=i+1) print i;"), Ok(vec![expected]));
}

#[test]
fn for_without_clauses_loops_on_true() {
    let expected = Stmt::Block {
        statements: vec![Stmt::While {
            condition: Box::new(Expr::Literal { value: Object::Boolean(true) }),
            body: Box::new(Stmt::Block { statements: vec![Stmt::Print { expr: Box::new(number("1", 1)) }] }),
        }],
    };
    assert_eq!(parse("for (;;) print 1;"), Ok(vec![expected]));
}

#[test]
fn function_declaration_and_return() {
    let expected = Stmt::Function {
        name: token(TokenType::Identifier, "f", 1),
        params: vec![token(TokenType::Identifier, "a", 1), token(TokenType::Identifier, "b", 1)],
        body: vec![
            Stmt::Return {
                keyword: token(TokenType::Return, "return", 1),
                value: Box::new(Some(Expr::Variable { name: token(TokenType::Identifier, "a", 1) })),
            },
            Stmt::Return { keyword: token(TokenType::Return, "return", 1), value: Box::new(None) },
        ],
    };
    assert_eq!(parse("fun f(a, b) { return a; return; }"), Ok(vec![expected]));
    assert_eq!(parse("fun (a) {}"), Err(ParseError::Expected { expected: TokenType::Identifier, line: 1 }));
    assert_eq!(parse("fun f(a {}"), Err(ParseError::Expected { expected: TokenType::RightParen, line: 1 }));
    assert_eq!(parse("fun f() print 1;"), Err(ParseError::Expected { expected: TokenType::LeftBrace, line: 1 }));
}

fn call_with_arguments(count: usize) -> String {
    let mut source = String::from("f(");
    for i in 0..count {
        if i > 0 {
            source.push_str(", ");
        }
        source.push_str("1");
    }
    source.push_str(");");
    source
}

fn function_with_parameters(count: usize) -> String {
    let mut source = String::from("fun f(");
    for i in 0..count {
        if i > 0 {
            source.push_str(", ");
        }
        source.push_str(&format!("p{}", i));
    }
    source.push_str(") {}");
    source
}

#[test]
fn a_call_takes_at_most_255_arguments() {
    match expression_of(&call_with_arguments(255)) {
        Expr::Call { arguments, .. } => assert_eq!(arguments.len(), 255),
        other => panic!("not a call: {:?}", other),
    }
    assert_eq!(parse(&call_with_arguments(256)), Err(ParseError::TooManyArguments { line: 1 }));
}

#[test]
fn a_function_takes_at_most_255_parameters() {
    match parse(&function_with_parameters(255)).unwrap().remove(0) {
        Stmt::Function { params, .. } => assert_eq!(params.len(), 255),
        other => panic!("not a function: {:?}", other),
    }
    assert_eq!(parse(&function_with_parameters(256)), Err(ParseError::TooManyParameters { line: 1 }));
}

#[test]
fn parse_error_messages() {
    assert_eq!(ParseError::ExpectedExpression { line: 3 }.message(), "Expect expression.");
    assert_eq!(ParseError::ExpectedExpression { line: 3 }.line(), 3);
    assert_eq!(ParseError::Expected { expected: TokenType::Semicolon, line: 1 }.message(), "Expect ';'.");
    assert_eq!(ParseError::Expected { expected: TokenType::Identifier, line: 1 }.message(), "Expect a name.");
    assert_eq!(ParseError::InvalidAssignmentTarget { line: 1 }.message(), "Invalid assignment target.");
    assert_eq!(ParseError::TooManyArguments { line: 1 }.message(), "Can't have more than 255 arguments.");
    assert_eq!(ParseError::TooManyParameters { line: 1 }.message(), "Can't have more than 255 parameters.");
}

#[test]
fn parsing_twice_gives_the_same_program() {
    let source = "fun f(n){ if (n<=1) return n; return f(n-1)+f(n-2); } print f(10);";
    assert_eq!(parse(source), parse(source));
    assert!(parse(source).is_ok());
}
