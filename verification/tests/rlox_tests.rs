use rlox::parser::ParseError;
use rlox::rlox::{RLox, EXIT_ERROR};
use rlox::runtime_error::RuntimeError;
use rlox::stmt::Stmt;
use rlox::text::decimal;
use rlox::token_type::{keyword, TokenType};

#[test]
fn a_new_sink_is_clean() {
    let rlox = RLox::new();
    assert!(!rlox.had_error());
    assert!(rlox.diagnostics().is_empty());
    assert_eq!(rlox.exit_code(), 0);
}

#[test]
fn error_reports_without_a_location() {
    let mut rlox = RLox::new();
    rlox.error(12, "Unexpected character".to_string());
    assert!(rlox.had_error());
    assert_eq!(rlox.diagnostics(), &vec!["[line 12] Error : Unexpected character".to_string()]);
    assert_eq!(rlox.exit_code(), 65);
    assert_eq!(EXIT_ERROR, 65);
}

#[test]
fn report_names_the_location() {
    let mut rlox = RLox::new();
    rlox.report(3, "at 'x'".to_string(), "Expect expression.".to_string());
    rlox.report(18446744073709551615, "at end".to_string(), "Again".to_string());
    assert_eq!(
        rlox.diagnostics(),
        &vec![
            "[line 3] Error at 'x': Expect expression.".to_string(),
            "[line 18446744073709551615] Error at end: Again".to_string(),
        ]
    );
}

#[test]
fn clearing_the_error_keeps_the_diagnostics() {
    let mut rlox = RLox::new();
    rlox.error(1, "x".to_string());
    rlox.clear_error();
    assert!(!rlox.had_error());
    assert_eq!(rlox.exit_code(), 0);
    assert_eq!(rlox.diagnostics().len(), 1);
}

#[test]
fn parse_and_runtime_errors_are_reported_with_their_lines() {
    let mut rlox = RLox::new();
    rlox.parse_error(&ParseError::Expected { expected: TokenType::RightParen, line: 4 });
    rlox.runtime_error(&RuntimeError::NotCallable { line: 9 });
    rlox.runtime_error(&RuntimeError::ReturnOutsideFunction);
    assert_eq!(
        rlox.diagnostics(),
        &vec![
            "[line 4] Error : Expect ')'.".to_string(),
            "[line 9] Error : Can only call functions and classes".to_string(),
            "[line 0] Error : Can't return from top-level code.".to_string(),
        ]
    );
}

#[test]
fn run_gives_the_program_of_a_sound_text() {
    let mut rlox = RLox::new();
    let program = rlox.run("var a = 1; print a;".to_string()).unwrap();
    assert_eq!(program.len(), 2);
    assert!(matches!(program[0], Stmt::Var { .. }));
    assert!(matches!(program[1], Stmt::Print { .. }));
    assert!(!rlox.had_error());
}

#[test]
fn run_reports_every_scanning_problem_and_does_not_parse() {
    let mut rlox = RLox::new();
    assert_eq!(rlox.run("@ print ;\n# \"open".to_string()), None);
    assert_eq!(
        rlox.diagnostics(),
        &vec![
            "[line 1] Error : Unexpected character".to_string(),
            "[line 2] Error : Unexpected character".to_string(),
            "[line 2] Error : Unterminated String".to_string(),
        ]
    );
}

#[test]
fn run_reports_the_first_parse_error_only() {
    let mut rlox = RLox::new();
    assert_eq!(rlox.run("print ;\nprint ;".to_string()), None);
    assert_eq!(rlox.diagnostics(), &vec!["[line 1] Error : Expect expression.".to_string()]);
    assert_eq!(rlox.exit_code(), 65);
}

#[test]
fn run_does_not_parse_while_the_sink_holds_an_error() {
    let mut rlox = RLox::new();
    rlox.error(1, "earlier".to_string());
    assert_eq!(rlox.run("print 1;".to_string()), None);
    rlox.clear_error();
    assert!(rlox.run("print 1;".to_string()).is_some());
}

#[test]
fn decimal_numerals() {
    assert_eq!(decimal(0), "0");
    assert_eq!(decimal(7), "7");
    assert_eq!(decimal(10), "10");
    assert_eq!(decimal(255), "255");
    assert_eq!(decimal(1234567890), "1234567890");
    assert_eq!(decimal(u64::MAX), "18446744073709551615");
}

#[test]
fn the_keyword_table() {
    let table = [
        ("and", TokenType::And),
        ("class", TokenType::Class),
        ("else", TokenType::Else),
        ("false", TokenType::False),
        ("for", TokenType::For),
        ("fun", TokenType::Fun),
        ("if", TokenType::If),
        ("nil", TokenType::Null),
        ("or", TokenType::Or),
        ("print", TokenType::Print),
        ("return", TokenType::Return),
        ("super", TokenType::Super),
        ("this", TokenType::This),
        ("true", TokenType::True),
        ("var", TokenType::Var),
        ("while", TokenType::While),
    ];
    for (word, kind) in table {
        assert_eq!(keyword(&word.to_string()), Some(kind));
    }
    for word in ["", "null", "And", "andy", "an", "printf", "_", "nil0"] {
        assert_eq!(keyword(&word.to_string()), None);
    }
}
