use rlox::object::Object;
use rlox::rlox::RLox;
use rlox::scanner::Scanner;
use rlox::token::Token;
use rlox::token_type::TokenType;

#[test]
fn test_scanner_ignores_whitespace() {
    let source: String = "\t \r \n \t \n \n \n \n \r \t \n \n \r \r \t \t".to_string();
    let mut rlox: RLox = RLox::new();
    let mut scanner: Scanner = Scanner::new(source);
    let result: Vec<Token> = scanner.scan_tokens(&mut rlox);

    assert!(result.len() == 1);
}

#[test]
fn test_scanner_line_number() {
    //                               0  1      2           3  4  5  6  7  8  9  10 11
    let source: String = "identifier \n \"some \n string\" \n \n \n \n \n \n \n \n \n".to_string();
    let mut rlox: RLox = RLox::new();
    let mut scanner: Scanner = Scanner::new(source);
    let result: Vec<Token> = scanner.scan_tokens(&mut rlox);

    assert!(scanner.line() == 12);

    assert!(TokenType::Identifier == result.get(0).unwrap().token_type);
    assert!("identifier".to_string() == result.get(0).unwrap().lexeme);

    assert!(TokenType::String == result.get(1).unwrap().token_type);
    assert!(Object::String("some \n string".to_string()) == result.get(1).unwrap().literal);

    assert!(TokenType::Eof == result.get(2).unwrap().token_type);
}

#[test]
fn test_scann_left_paren() {
    let source: String = "(".to_string();
    let mut rlox: RLox = RLox::new();
    let mut scanner: Scanner = Scanner::new(source);
    let result: Vec<Token> = scanner.scan_tokens(&mut rlox);

    assert!(result.len() == 2);
    assert!(TokenType::LeftParen == result.get(0).unwrap().token_type);
    assert!(TokenType::Eof == result.get(1).unwrap().token_type);
}

#[test]
fn test_scann_right_paren() {
    let source: String = ")".to_string();
    let mut rlox: RLox = RLox::new();
    let mut scanner: Scanner = Scanner::new(source);
    let result: Vec<Token> = scanner.scan_tokens(&mut rlox);

    assert!(result.len() == 2);
    assert!(TokenType::RightParen == result.get(0).unwrap().token_type);
    assert!(TokenType::Eof == result.get(1).unwrap().token_type);
}

#[test]
fn test_scann_left_brace() {
    let source: String = "{".to_string();
    let mut rlox: RLox = RLox::new();
    let mut scanner: Scanner = Scanner::new(source);
    let result: Vec<Token> = scanner.scan_tokens(&mut rlox);

    assert!(result.len() == 2);
    assert!(TokenType::LeftBrace == result.get(0).unwrap().token_type);
    assert!(TokenType::Eof == result.get(1).unwrap().token_type);
}

#[test]
fn test_scann_right_brace() {
    let source: String = "}".to_string();
    let mut rlox: RLox = RLox::new();
    let mut scanner: Scanner = Scanner::new(source);
    let result: Vec<Token> = scanner.scan_tokens(&mut rlox);

    assert!(result.len() == 2);
    assert!(TokenType::RightBrace == result.get(0).unwrap().token_type);
    assert!(TokenType::Eof == result.get(1).unwrap().token_type);
}

#[test]
fn test_scann_minus() {
    let source: String = "-".to_string();
    let mut rlox: RLox = RLox::new();
    let mut scanner: Scanner = Scanner::new(source);
    let result: Vec<Token> = scanner.scan_tokens(&mut rlox);

    assert!(result.len() == 2);
    assert!(TokenType::Minus == result.get(0).unwrap().token_type);
    assert!(TokenType::Eof == result.get(1).unwrap().token_type);
}

#[test]
fn test_scann_plus() {
    let source: String = "+".to_string();
    let mut rlox: RLox = RLox::new();
    let mut scanner: Scanner = Scanner::new(source);
    let result: Vec<Token> = scanner.scan_tokens(&mut rlox);

    assert!(result.len() == 2);
    assert!(TokenType::Plus == result.get(0).unwrap().token_type);
    assert!(TokenType::Eof == result.get(1).unwrap().token_type);
}

#[test]
fn test_scann_comma() {
    let source: String = ",".to_string();
    let mut rlox: RLox = RLox::new();
    let mut scanner: Scanner = Scanner::new(source);
    let result: Vec<Token> = scanner.scan_tokens(&mut rlox);

    assert!(result.len() == 2);
    assert!(TokenType::Comma == result.get(0).unwrap().token_type);
    assert!(TokenType::Eof == result.get(1).unwrap().token_type);
}

#[test]
fn test_scann_dot() {
    let source: String = ".".to_string();
    let mut rlox: RLox = RLox::new();
    let mut scanner: Scanner = Scanner::new(source);
    let result: Vec<Token> = scanner.scan_tokens(&mut rlox);

    assert!(result.len() == 2);
    assert!(TokenType::Dot == result.get(0).unwrap().token_type);
    assert!(TokenType::Eof == result.get(1).unwrap().token_type);
}

#[test]
fn test_scann_semicolon() {
    let source: String = ";".to_string();
    let mut rlox: RLox = RLox::new();
    let mut scanner: Scanner = Scanner::new(source);
    let result: Vec<Token> = scanner.scan_tokens(&mut rlox);

    assert!(result.len() == 2);
    assert!(TokenType::Semicolon == result.get(0).unwrap().token_type);
    assert!(TokenType::Eof == result.get(1).unwrap().token_type);
}

#[test]
fn test_scann_star() {
    let source: String = "*".to_string();
    let mut rlox: RLox = RLox::new();
    let mut scanner: Scanner = Scanner::new(source);
    let result: Vec<Token> = scanner.scan_tokens(&mut rlox);

    assert!(result.len() == 2);
    assert!(TokenType::Star == result.get(0).unwrap().token_type);
    assert!(TokenType::Eof == result.get(1).unwrap().token_type);
}

#[test]
fn test_scann_equal() {
    let source: String = "=".to_string();
    let mut rlox: RLox = RLox::new();
    let mut scanner: Scanner = Scanner::new(source);
    let result: Vec<Token> = scanner.scan_tokens(&mut rlox);
    assert!(result.len() == 2);
    assert!(TokenType::Equal == result.get(0).unwrap().token_type);
    assert!(TokenType::Eof == result.get(1).unwrap().token_type);
}

#[test]
fn test_scann_less() {
    let source: String = "<".to_string();
    let mut rlox: RLox = RLox::new();
    let mut scanner: Scanner = Scanner::new(source);
    let result: Vec<Token> = scanner.scan_tokens(&mut rlox);

    assert!(result.len() == 2);
    assert!(TokenType::Less == result.get(0).unwrap().token_type);
    assert!(TokenType::Eof == result.get(1).unwrap().token_type);
}

#[test]
fn test_scann_greater() {
    let source: String = ">".to_string();
    let mut rlox: RLox = RLox::new();
    let mut scanner: Scanner = Scanner::new(source);
    let result: Vec<Token> = scanner.scan_tokens(&mut rlox);

    assert!(result.len() == 2);
    assert!(TokenType::Greater == result.get(0).unwrap().token_type);
    assert!(TokenType::Eof == result.get(1).unwrap().token_type);
}

#[test]
fn test_scann_equal_equal() {
    let source: String = "==".to_string();
    let mut rlox: RLox = RLox::new();
    let mut scanner: Scanner = Scanner::new(source);
    let result: Vec<Token> = scanner.scan_tokens(&mut rlox);

    assert!(result.len() == 2);
    assert!(TokenType::EqualEqual == result.get(0).unwrap().token_type);
    assert!(TokenType::Eof == result.get(1).unwrap().token_type);
}

#[test]
fn test_scann_greater_equal() {
    let source: String = ">=".to_string();
    let mut rlox: RLox = RLox::new();
    let mut scanner: Scanner = Scanner::new(source);
    let result: Vec<Token> = scanner.scan_tokens(&mut rlox);

    assert!(result.len() == 2);
    assert!(TokenType::GreaterEqual == result.get(0).unwrap().token_type);
    assert!(TokenType::Eof == result.get(1).unwrap().token_type);
}

#[test]
fn test_scann_less_equal() {
    let source: String = "<=".to_string();
    let mut rlox: RLox = RLox::new();
    let mut scanner: Scanner = Scanner::new(source);
    let result: Vec<Token> = scanner.scan_tokens(&mut rlox);

    assert!(result.len() == 2);
    assert!(TokenType::LessEqual == result.get(0).unwrap().token_type);
    assert!(TokenType::Eof == result.get(1).unwrap().token_type);
}

#[test]
fn test_scann_single_line_comment() {
    let source: String = "// this should be ignored.".to_string();
    let mut rlox: RLox = RLox::new();
    let mut scanner: Scanner = Scanner::new(source);
    let result: Vec<Token> = scanner.scan_tokens(&mut rlox);

    assert!(result.len() == 1);
    assert!(TokenType::Eof == result.get(0).unwrap().token_type);
}

#[test]
fn test_scann_string() {
    let source: String = "\"This should be parsed as a string.\"".to_string();
    let mut rlox: RLox = RLox::new();
    let mut scanner: Scanner = Scanner::new(source.clone());
    let result: Vec<Token> = scanner.scan_tokens(&mut rlox);

    assert!(result.len() == 2);
    assert!(TokenType::String == result.get(0).unwrap().token_type);
    assert!(TokenType::Eof == result.get(1).unwrap().token_type);

    assert!(source == result.get(0).unwrap().lexeme);
    // Trim the surrounding quotes
    let trimmed = source[1 .. source.len() - 1].to_string();
    assert!(Object::String(trimmed) == result.get(0).unwrap().literal);
}

#[test]
fn test_scann_number() {
    let source: String = "15.28".to_string();
    let mut rlox: RLox = RLox::new();
    let mut scanner: Scanner = Scanner::new(source.clone());
    let result: Vec<Token> = scanner.scan_tokens(&mut rlox);

    assert!(result.len() == 2);
    assert!(TokenType::Number == result.get(0).unwrap().token_type);
    assert!(TokenType::Eof == result.get(1).unwrap().token_type);

    assert!(source == result.get(0).unwrap().lexeme);
    assert!(Object::Number(source.clone()) == result.get(0).unwrap().literal);
    match &result.get(0).unwrap().literal {
        Object::Number(numeral) => assert!(15.28 == numeral.parse::<f64>().unwrap()),
        other => panic!("not a number: {:?}", other),
    }
}

#[test]
fn test_scann_and_keyword() {
    let source: String = "and".to_string();
    let mut rlox: RLox = RLox::new();
    let mut scanner: Scanner = Scanner::new(source.clone());
    let result: Vec<Token> = scanner.scan_tokens(&mut rlox);

    assert!(result.len() == 2);
    assert!(TokenType::And == result.get(0).unwrap().token_type);
    assert!(TokenType::Eof == result.get(1).unwrap().token_type);

    assert!(source == result.get(0).unwrap().lexeme);
}

#[test]
fn test_scann_class_keyword() {
    let source: String = "class".to_string();
    let mut rlox: RLox = RLox::new();
    let mut scanner: Scanner = Scanner::new(source.clone());
    let result: Vec<Token> = scanner.scan_tokens(&mut rlox);

    assert!(result.len() == 2);
    assert!(TokenType::Class == result.get(0).unwrap().token_type);
    assert!(TokenType::Eof == result.get(1).unwrap().token_type);

    assert!(source == result.get(0).unwrap().lexeme);
}

#[test]
fn test_scann_else_keyword() {
    let source: String = "else".to_string();
    let mut rlox: RLox = RLox::new();
    let mut scanner: Scanner = Scanner::new(source.clone());
    let result: Vec<Token> = scanner.scan_tokens(&mut rlox);

    assert!(result.len() == 2);
    assert!(TokenType::Else == result.get(0).unwrap().token_type);
    assert!(TokenType::Eof == result.get(1).unwrap().token_type);

    assert!(source == result.get(0).unwrap().lexeme);
}

#[test]
fn test_scann_false_keyword() {
    let source: String = "false".to_string();
    let mut rlox: RLox = RLox::new();
    let mut scanner: Scanner = Scanner::new(source.clone());
    let result: Vec<Token> = scanner.scan_tokens(&mut rlox);

    assert!(result.len() == 2);
    assert!(TokenType::False == result.get(0).unwrap().token_type);
    assert!(TokenType::Eof == result.get(1).unwrap().token_type);

    assert!(source == result.get(0).unwrap().lexeme);
}

#[test]
fn test_scann_for_keyword() {
    let source: String = "for".to_string();
    let mut rlox: RLox = RLox::new();
    let mut scanner: Scanner = Scanner::new(source.clone());
    let result: Vec<Token> = scanner.scan_tokens(&mut rlox);

    assert!(result.len() == 2);
    assert!(TokenType::For == result.get(0).unwrap().token_type);
    assert!(TokenType::Eof == result.get(1).unwrap().token_type);

    assert!(source == result.get(0).unwrap().lexeme);
}

#[test]
fn test_scann_fun_keyword() {
    let source: String = "fun".to_string();
    let mut rlox: RLox = RLox::new();
    let mut scanner: Scanner = Scanner::new(source.clone());
    let result: Vec<Token> = scanner.scan_tokens(&mut rlox);

    assert!(result.len() == 2);
    assert!(TokenType::Fun == result.get(0).unwrap().token_type);
    assert!(TokenType::Eof == result.get(1).unwrap().token_type);

    assert!(source == result.get(0).unwrap().lexeme);
}

#[test]
fn test_scann_if_keyword() {
    let source: String = "if".to_string();
    let mut rlox: RLox = RLox::new();
    let mut scanner: Scanner = Scanner::new(source.clone());
    let result: Vec<Token> = scanner.scan_tokens(&mut rlox);

    assert!(result.len() == 2);
    assert!(TokenType::If == result.get(0).unwrap().token_type);
    assert!(TokenType::Eof == result.get(1).unwrap().token_type);

    assert!(source == result.get(0).unwrap().lexeme);
}

#[test]
fn test_scann_null_keyword() {
    let source: String = "nil".to_string();
    let mut rlox: RLox = RLox::new();
    let mut scanner: Scanner = Scanner::new(source.clone());
    let result: Vec<Token> = scanner.scan_tokens(&mut rlox);

    assert!(result.len() == 2);
    assert!(TokenType::Null == result.get(0).unwrap().token_type);
    assert!(TokenType::Eof == result.get(1).unwrap().token_type);

    assert!(source == result.get(0).unwrap().lexeme);
}

#[test]
fn test_scann_or_keyword() {
    let source: String = "or".to_string();
    let mut rlox: RLox = RLox::new();
    let mut scanner: Scanner = Scanner::new(source.clone());
    let result: Vec<Token> = scanner.scan_tokens(&mut rlox);

    assert!(result.len() == 2);
    assert!(TokenType::Or == result.get(0).unwrap().token_type);
    assert!(TokenType::Eof == result.get(1).unwrap().token_type);

    assert!(source == result.get(0).unwrap().lexeme);
}

#[test]
fn test_scann_print_keyword() {
    let source: String = "print".to_string();
    let mut rlox: RLox = RLox::new();
    let mut scanner: Scanner = Scanner::new(source.clone());
    let result: Vec<Token> = scanner.scan_tokens(&mut rlox);

    assert!(result.len() == 2);
    assert!(TokenType::Print == result.get(0).unwrap().token_type);
    assert!(TokenType::Eof == result.get(1).unwrap().token_type);

    assert!(source == result.get(0).unwrap().lexeme);
}

#[test]
fn test_scann_return_keyword() {
    let source: String = "return".to_string();
    let mut rlox: RLox = RLox::new();
    let mut scanner: Scanner = Scanner::new(source.clone());
    let result: Vec<Token> = scanner.scan_tokens(&mut rlox);

    assert!(result.len() == 2);
    assert!(TokenType::Return == result.get(0).unwrap().token_type);
    assert!(TokenType::Eof == result.get(1).unwrap().token_type);

    assert!(source == result.get(0).unwrap().lexeme);
}

#[test]
fn test_scann_super_keyword() {
    let source: String = "super".to_string();
    let mut rlox: RLox = RLox::new();
    let mut scanner: Scanner = Scanner::new(source.clone());
    let result: Vec<Token> = scanner.scan_tokens(&mut rlox);

    assert!(result.len() == 2);
    assert!(TokenType::Super == result.get(0).unwrap().token_type);
    assert!(TokenType::Eof == result.get(1).unwrap().token_type);

    assert!(source == result.get(0).unwrap().lexeme);
}

#[test]
fn test_scann_this_keyword() {
    let source: String = "this".to_string();
    let mut rlox: RLox = RLox::new();
    let mut scanner: Scanner = Scanner::new(source.clone());
    let result: Vec<Token> = scanner.scan_tokens(&mut rlox);

    assert!(result.len() == 2);
    assert!(TokenType::This == result.get(0).unwrap().token_type);
    assert!(TokenType::Eof == result.get(1).unwrap().token_type);

    assert!(source == result.get(0).unwrap().lexeme);
}

#[test]
fn test_scann_true_keyword() {
    let source: String = "true".to_string();
    let mut rlox: RLox = RLox::new();
    let mut scanner: Scanner = Scanner::new(source.clone());
    let result: Vec<Token> = scanner.scan_tokens(&mut rlox);

    assert!(result.len() == 2);
    assert!(TokenType::True == result.get(0).unwrap().token_type);
    assert!(TokenType::Eof == result.get(1).unwrap().token_type);

    assert!(source == result.get(0).unwrap().lexeme);
}

#[test]
fn test_scann_var_keyword() {
    let source: String = "var".to_string();
    let mut rlox: RLox = RLox::new();
    let mut scanner: Scanner = Scanner::new(source.clone());
    let result: Vec<Token> = scanner.scan_tokens(&mut rlox);

    assert!(result.len() == 2);
    assert!(TokenType::Var == result.get(0).unwrap().token_type);
    assert!(TokenType::Eof == result.get(1).unwrap().token_type);

    assert!(source == result.get(0).unwrap().lexeme);
}

#[test]
fn test_scann_while_keyword() {
    let source: String = "while".to_string();
    let mut rlox: RLox = RLox::new();
    let mut scanner: Scanner = Scanner::new(source.clone());
    let result: Vec<Token> = scanner.scan_tokens(&mut rlox);

    assert!(result.len() == 2);
    assert!(TokenType::While == result.get(0).unwrap().token_type);
    assert!(TokenType::Eof == result.get(1).unwrap().token_type);

    assert!(source == result.get(0).unwrap().lexeme);
}

#[test]
fn test_scann_identifier() {
    let source: String = "some_identifier_01".to_string();
    let mut rlox: RLox = RLox::new();
    let mut scanner: Scanner = Scanner::new(source.clone());
    let result: Vec<Token> = scanner.scan_tokens(&mut rlox);

    assert!(result.len() == 2);
    assert!(TokenType::Identifier == result.get(0).unwrap().token_type);
    assert!(TokenType::Eof == result.get(1).unwrap().token_type);

    assert!(source == result.get(0).unwrap().lexeme);
}

fn scan(source: &str) -> (Vec<Token>, RLox) {
    let mut rlox: RLox = RLox::new();
    let mut scanner: Scanner = Scanner::new(source.to_string());
    let tokens = scanner.scan_tokens(&mut rlox);
    (tokens, rlox)
}

fn kinds(source: &str) -> Vec<TokenType> {
    scan(source).0.iter().map(|token| token.token_type).collect()
}

fn lexemes(source: &str) -> Vec<String> {
    scan(source).0.iter().map(|token| token.lexeme.clone()).collect()
}

#[test]
fn the_empty_text_scans_to_eof_on_line_one() {
    let (tokens, rlox) = scan("");
    assert_eq!(tokens, vec![Token::new(TokenType::Eof, String::new(), Object::Null, 1)]);
    assert!(!rlox.had_error());
}

#[test]
fn null_is_an_identifier_and_nil_the_keyword() {
    assert_eq!(kinds("null nil"), vec![TokenType::Identifier, TokenType::Null, TokenType::Eof]);
}

#[test]
fn bang_and_bang_equal() {
    assert_eq!(
        kinds("! != !== =! <= < >= > =="),
        vec![
            TokenType::Bang,
            TokenType::BangEqual,
            TokenType::BangEqual,
            TokenType::Equal,
            TokenType::Equal,
            TokenType::Bang,
            TokenType::LessEqual,
            TokenType::Less,
            TokenType::GreaterEqual,
            TokenType::Greater,
            TokenType::EqualEqual,
            TokenType::Eof,
        ]
    );
}

#[test]
fn slash_and_comment() {
    assert_eq!(kinds("1 / 2 // the rest / is ignored\n3"),
        vec![TokenType::Number, TokenType::Slash, TokenType::Number, TokenType::Number, TokenType::Eof]);
    let (tokens, _) = scan("// comment\nx");
    assert_eq!(tokens[0].line, 2);
}

#[test]
fn numbers_with_and_without_fraction() {
    assert_eq!(lexemes("12 3.5 7. .5 1.2.3"), vec!["12", "3.5", "7", ".", ".", "5", "1.2", ".", "3", ""]);
    let (tokens, _) = scan("7.");
    assert_eq!(tokens[0].literal, Object::Number("7".to_string()));
    assert_eq!(tokens[1].token_type, TokenType::Dot);
    let (tokens, _) = scan("0.25");
    assert_eq!(tokens[0].literal, Object::Number("0.25".to_string()));
}

#[test]
fn identifiers_and_keywords_are_told_apart_by_the_whole_word() {
    assert_eq!(
        kinds("or orchid _or for form fun_ 9lives"),
        vec![
            TokenType::Or,
            TokenType::Identifier,
            TokenType::Identifier,
            TokenType::For,
            TokenType::Identifier,
            TokenType::Identifier,
            TokenType::Number,
            TokenType::Identifier,
            TokenType::Eof,
        ]
    );
}

#[test]
fn strings_are_not_unescaped() {
    let (tokens, rlox) = scan("\"a\\nb\"");
    assert!(!rlox.had_error());
    assert_eq!(tokens[0].literal, Object::String("a\\nb".to_string()));
    assert_eq!(tokens[0].lexeme, "\"a\\nb\"");
    let (tokens, _) = scan("\"\"");
    assert_eq!(tokens[0].literal, Object::String(String::new()));
}

#[test]
fn a_string_token_carries_the_line_on_which_it_ends() {
    let (tokens, _) = scan("\"one\ntwo\nthree\" x");
    assert_eq!(tokens[0].token_type, TokenType::String);
    assert_eq!(tokens[0].line, 3);
    assert_eq!(tokens[1].line, 3);
}

#[test]
fn an_unterminated_string_is_reported_and_gives_no_token() {
    let (tokens, rlox) = scan("x \"open\nstill open");
    assert_eq!(kinds("x \"open\nstill open"), vec![TokenType::Identifier, TokenType::Eof]);
    assert!(rlox.had_error());
    assert_eq!(rlox.diagnostics(), &vec!["[line 2] Error : Unterminated String".to_string()]);
    assert_eq!(tokens[1].line, 2);
}

#[test]
fn an_unexpected_character_is_reported_and_scanning_goes_on() {
    let (tokens, rlox) = scan("a @ b\n# c");
    assert_eq!(
        tokens.iter().map(|t| t.lexeme.as_str()).collect::<Vec<_>>(),
        vec!["a", "b", "c", ""]
    );
    assert_eq!(
        rlox.diagnostics(),
        &vec![
            "[line 1] Error : Unexpected character".to_string(),
            "[line 2] Error : Unexpected character".to_string(),
        ]
    );
}

#[test]
fn characters_outside_ascii_are_unexpected_outside_strings() {
    let (tokens, rlox) = scan("é \"é\" ü");
    assert_eq!(tokens.len(), 2);
    assert_eq!(tokens[0].literal, Object::String("é".to_string()));
    assert_eq!(rlox.diagnostics().len(), 2);
}

#[test]
fn every_lexeme_is_cut_from_the_source_in_order() {
    let source = "fun f(n) { // c\n  return n <= 1.5 + \"s\nt\"; }\n@ while";
    let (tokens, _) = scan(source);
    let mut from = 0;
    for token in &tokens[..tokens.len() - 1] {
        let at = source[from..].find(token.lexeme.as_str()).expect("the lexeme follows in the text");
        from += at + token.lexeme.len();
    }
    assert_eq!(tokens.last().unwrap().token_type, TokenType::Eof);
    assert_eq!(tokens.last().unwrap().lexeme, "");
    assert_eq!(tokens.last().unwrap().line, 4);
}

#[test]
fn scanning_twice_gives_the_same_tokens() {
    let source = "var a = 1; { var a = 2; print a; } print a;";
    assert_eq!(scan(source).0, scan(source).0);
}

#[test]
fn a_scanner_that_is_done_adds_only_eof() {
    let mut rlox: RLox = RLox::new();
    let mut scanner: Scanner = Scanner::new("a".to_string());
    assert_eq!(scanner.scan_tokens(&mut rlox).len(), 2);
    assert_eq!(scanner.scan_tokens(&mut rlox).len(), 3);
}
