use rlox::interpreter::Interpreter;
use rlox::machine::Step;
use rlox::number::ArithmeticOperator;
use rlox::expr::Expr;
use rlox::object::Object;
use rlox::rlox::RLox;
use rlox::stmt::Stmt;
use rlox::token::Token;
use rlox::token_type::TokenType;
use rlox::runtime_error::RuntimeError;
use rlox::value::Value;
use std::time::{SystemTime, UNIX_EPOCH};

/// What a run gave: the lines printed, the exit code, the diagnostics and
/// the runtime error, if one stopped the program.
struct Run {
    output: Vec<String>,
    exit_code: u8,
    diagnostics: Vec<String>,
    error: Option<RuntimeError>,
}

/// Drives the interpreter as a host does: prints, and does the
/// floating-point work and the clock reading it is asked for.
fn run(source: &str) -> Run {
    let mut rlox = RLox::new();
    let program = rlox.run(source.to_string());
    let mut output = Vec::new();
    let mut error = None;
    if let Some(program) = program {
        let mut interpreter = Interpreter::new(&program);
        loop {
            let step = interpreter.interpret(100_000);
            if rlox.conclude(&step) {
                if let Step::Failed(failure) = step {
                    error = Some(failure);
                }
                break;
            }
            match step {
                Step::Print(text) => output.push(text),
                Step::PrintNumber(bits) => output.push(format!("{}", f64::from_bits(bits))),
                Step::ParseNumber(numeral) => interpreter.supply(numeral.parse::<f64>().unwrap().to_bits()),
                Step::Arithmetic { operator, left, right } => {
                    let (l, r) = (f64::from_bits(left), f64::from_bits(right));
                    let result = match operator {
                        ArithmeticOperator::Add => l + r,
                        ArithmeticOperator::Subtract => l - r,
                        ArithmeticOperator::Multiply => l * r,
                        ArithmeticOperator::Divide => l / r,
                    };
                    interpreter.supply(result.to_bits());
                }
                Step::Clock => {
                    let now = SystemTime::now().duration_since(UNIX_EPOCH).unwrap().as_millis();
                    interpreter.supply((now as f64).to_bits());
                }
                Step::Continue | Step::Finished | Step::Failed(_) => {}
            }
        }
    }
    Run { output, exit_code: rlox.exit_code(), diagnostics: rlox.diagnostics().clone(), error }
}

fn prints(source: &str) -> Vec<String> {
    let run = run(source);
    assert_eq!(run.exit_code, 0, "diagnostics: {:?}", run.diagnostics);
    run.output
}

#[test]
fn prints_the_sum_of_two_numbers() {
    assert_eq!(prints("print 1 + 2;"), vec!["3"]);
}

#[test]
fn concatenates_strings() {
    assert_eq!(prints("print \"foo\" + \"bar\";"), vec!["foobar"]);
}

#[test]
fn a_block_shadows_and_restores() {
    assert_eq!(prints("var a = 1; { var a = 2; print a; } print a;"), vec!["2", "1"]);
}

#[test]
fn recursive_fibonacci() {
    assert_eq!(
        prints("fun f(n){ if (n<=1) return n; return f(n-1)+f(n-2); } print f(10);"),
        vec!["55"]
    );
}

#[test]
fn a_counter_keeps_its_captured_variable() {
    assert_eq!(
        prints(
            "fun makeCounter(){ var i=0; fun c(){ i=i+1; return i; } return c; } var c=makeCounter(); print c(); print c();"
        ),
        vec!["1", "2"]
    );
}

#[test]
fn a_for_loop_counts() {
    assert_eq!(prints("for (var i=0; i<3; i=i+1) print i;"), vec!["0", "1", "2"]);
}

#[test]
fn equality_of_nil_and_across_types() {
    assert_eq!(
        prints("print nil == nil; print nil == false; print 1 == \"1\";"),
        vec!["true", "false", "false"]
    );
}

#[test]
fn unary_minus_and_precedence() {
    assert_eq!(prints("print -1 + 2 * 3;"), vec!["5"]);
}

#[test]
fn adding_a_string_and_a_number_is_a_runtime_error() {
    let run = run("print \"a\" + 1;");
    assert_eq!(run.exit_code, 65);
    assert!(run.output.is_empty());
    assert_eq!(run.error, Some(RuntimeError::OperandsMustBeNumbersOrStrings { line: 1 }));
    assert_eq!(run.diagnostics, vec!["[line 1] Error : Operands must be numbers or strings"]);
}

#[test]
fn the_clock_is_not_negative() {
    assert_eq!(prints("print clock() >= 0;"), vec!["true"]);
}

#[test]
fn or_evaluates_its_right_operand_only_after_a_falsy_left() {
    let program = "var hits = 0; fun touch(v) { hits = hits + 1; return v; }";
    assert_eq!(prints(&format!("{} print true or touch(1); print hits;", program)), vec!["true", "0"]);
    assert_eq!(prints(&format!("{} print 7 or touch(1); print hits;", program)), vec!["7", "0"]);
    assert_eq!(prints(&format!("{} print false or touch(1); print hits;", program)), vec!["1", "1"]);
    assert_eq!(prints(&format!("{} print nil or touch(\"x\"); print hits;", program)), vec!["x", "1"]);
}

#[test]
fn and_evaluates_its_right_operand_only_after_a_truthy_left() {
    let program = "var hits = 0; fun touch(v) { hits = hits + 1; return v; }";
    assert_eq!(prints(&format!("{} print false and touch(1); print hits;", program)), vec!["false", "0"]);
    assert_eq!(prints(&format!("{} print nil and touch(1); print hits;", program)), vec!["nil", "0"]);
    assert_eq!(prints(&format!("{} print true and touch(2); print hits;", program)), vec!["2", "1"]);
    assert_eq!(prints(&format!("{} print 0 and touch(nil); print hits;", program)), vec!["nil", "1"]);
}

#[test]
fn a_closure_sees_its_block_after_the_block_is_left() {
    assert_eq!(
        prints("var f; { var secret = \"kept\"; fun show() { print secret; } f = show; } f();"),
        vec!["kept"]
    );
}

#[test]
fn a_closure_sees_later_assignments_to_what_it_captured() {
    assert_eq!(
        prints("var f; { var n = 1; fun show() { print n; } f = show; n = 2; } f();"),
        vec!["2"]
    );
}

#[test]
fn a_return_leaves_exactly_one_call() {
    assert_eq!(
        prints(
            "fun inner() { while (true) { { return 1; } } } fun outer() { var x = inner(); print \"back\"; return x + 1; } print outer();"
        ),
        vec!["back", "2"]
    );
}

#[test]
fn mutual_recursion_unwinds() {
    assert_eq!(
        prints(
            "fun even(n) { if (n == 0) return true; return odd(n - 1); } fun odd(n) { if (n == 0) return false; return even(n - 1); } print even(10); print odd(7);"
        ),
        vec!["true", "true"]
    );
}

#[test]
fn a_function_without_return_gives_nil() {
    assert_eq!(prints("fun f() { } print f();"), vec!["nil"]);
    assert_eq!(prints("fun f() { return; } print f();"), vec!["nil"]);
}

#[test]
fn the_scope_of_the_caller_is_restored_after_a_return() {
    assert_eq!(
        prints("var a = \"global\"; fun f() { var a = \"local\"; { return a; } } { var a = \"block\"; print f(); print a; } print a;"),
        vec!["local", "block", "global"]
    );
}

#[test]
fn a_stray_return_is_a_runtime_error() {
    let run = run("print 1; return 2; print 3;");
    assert_eq!(run.output, vec!["1"]);
    assert_eq!(run.exit_code, 65);
    assert_eq!(run.error, Some(RuntimeError::ReturnOutsideFunction));
}

#[test]
fn printing_values() {
    assert_eq!(prints("print nil; print true; print false; print \"text\"; print 1.5; print 2;"),
        vec!["nil", "true", "false", "text", "1.5", "2"]);
    assert_eq!(prints("fun named() {} print named;"), vec!["<fn named>"]);
    assert_eq!(prints("print clock;"), vec!["<fn <builtin fn clock>>"]);
}

#[test]
fn arithmetic_follows_the_doubles() {
    assert_eq!(prints("print 7 - 2; print 3 * 4; print 1 / 4; print 0.1 + 0.2;"),
        vec!["5", "12", "0.25", "0.30000000000000004"]);
    assert_eq!(prints("print 1 / 0; print -1 / 0; print 0 / 0 == 0 / 0;"), vec!["inf", "-inf", "false"]);
}

#[test]
fn comparisons() {
    assert_eq!(prints("print 1 < 2; print 2 <= 2; print 1 > 2; print 2 >= 3; print 1 != 2; print 1 == 1;"),
        vec!["true", "true", "false", "false", "true", "true"]);
    assert_eq!(prints("print -0 == 0; print -1 < 0; print -2 < -1; print 0 < -0;"),
        vec!["true", "true", "true", "false"]);
}

#[test]
fn strings_compare_by_content() {
    assert_eq!(prints("print \"a\" == \"a\"; print \"a\" == \"b\"; print \"a\" != \"b\";"),
        vec!["true", "false", "true"]);
}

#[test]
fn bang_negates_truthiness() {
    assert_eq!(prints("print !nil; print !false; print !0; print !\"\"; print !!true;"),
        vec!["true", "true", "false", "false", "true"]);
}

#[test]
fn a_string_keeps_its_newline() {
    assert_eq!(prints("print \"a\nb\";"), vec!["a\nb"]);
}

#[test]
fn while_loops_until_the_condition_is_falsy() {
    assert_eq!(prints("var n = 3; while (n > 0) { print n; n = n - 1; }"), vec!["3", "2", "1"]);
}

#[test]
fn if_chooses_by_truthiness() {
    assert_eq!(prints("if (nil) print 1; else print 2; if (0) print 3; if (false) print 4;"), vec!["2", "3"]);
}

#[test]
fn assignment_is_an_expression_and_reaches_outer_scopes() {
    assert_eq!(prints("var a = 1; var b; { b = a = 5; } print a; print b;"), vec!["5", "5"]);
}

#[test]
fn a_function_body_sees_globals_defined_after_it() {
    assert_eq!(prints("fun f() { return later; } var later = \"now\"; print f();"), vec!["now"]);
}

#[test]
fn redefining_a_variable_overwrites_it() {
    assert_eq!(prints("var a = 1; var a = 2; print a; { var b = 1; var b = 3; print b; }"), vec!["2", "3"]);
}

#[test]
fn arguments_are_evaluated_left_to_right() {
    assert_eq!(
        prints("fun show(v) { print v; return v; } fun three(a, b, c) { return c; } print three(show(1), show(2), show(3));"),
        vec!["1", "2", "3", "3"]
    );
}

#[test]
fn runtime_errors() {
    assert_eq!(run("print -\"a\";").error, Some(RuntimeError::OperandMustBeNumber { line: 1 }));
    assert_eq!(run("print 1 - \"a\";").error, Some(RuntimeError::OperandsMustBeNumbers { line: 1 }));
    assert_eq!(run("print 1 * nil;").error, Some(RuntimeError::OperandsMustBeNumbers { line: 1 }));
    assert_eq!(run("print true / 1;").error, Some(RuntimeError::OperandsMustBeNumbers { line: 1 }));
    assert_eq!(run("\nprint 1 < \"2\";").error, Some(RuntimeError::OperandsMustBeNumbers { line: 2 }));
    assert_eq!(run("print nil + nil;").error, Some(RuntimeError::OperandsMustBeNumbersOrStrings { line: 1 }));
    assert_eq!(
        run("print missing;").error,
        Some(RuntimeError::UndefinedVariable { name: "missing".to_string(), line: 1 })
    );
    assert_eq!(
        run("missing = 1;").error,
        Some(RuntimeError::UndefinedVariable { name: "missing".to_string(), line: 1 })
    );
    assert_eq!(run("\"text\"();").error, Some(RuntimeError::NotCallable { line: 1 }));
    assert_eq!(
        run("fun f(a) {} f(1, 2);").error,
        Some(RuntimeError::ArityMismatch { expected: 1, found: 2, line: 1 })
    );
    assert_eq!(
        run("clock(1);").error,
        Some(RuntimeError::ArityMismatch { expected: 0, found: 1, line: 1 })
    );
}

#[test]
fn runtime_error_messages() {
    assert_eq!(RuntimeError::OperandMustBeNumber { line: 1 }.message(), "Operand must be a number.");
    assert_eq!(RuntimeError::OperandsMustBeNumbers { line: 1 }.message(), "Operands must be numbers.");
    assert_eq!(
        RuntimeError::UndefinedVariable { name: "x".to_string(), line: 4 }.message(),
        "Undefined variable 'x'."
    );
    assert_eq!(RuntimeError::UndefinedVariable { name: "x".to_string(), line: 4 }.line(), 4);
    assert_eq!(
        RuntimeError::ArityMismatch { expected: 2, found: 10, line: 1 }.message(),
        "Expected 2 arguments, but got 10."
    );
    assert_eq!(RuntimeError::NotCallable { line: 1 }.message(), "Can only call functions and classes");
    assert_eq!(RuntimeError::ReturnOutsideFunction.message(), "Can't return from top-level code.");
}

#[test]
fn a_runtime_error_stops_the_program() {
    let run = run("print 1; print nope; print 2;");
    assert_eq!(run.output, vec!["1"]);
    assert_eq!(run.exit_code, 65);
    assert_eq!(run.diagnostics, vec!["[line 1] Error : Undefined variable 'nope'."]);
}

#[test]
fn a_scan_error_keeps_the_program_from_running() {
    let run = run("print 1; @");
    assert!(run.output.is_empty());
    assert_eq!(run.exit_code, 65);
    assert_eq!(run.diagnostics, vec!["[line 1] Error : Unexpected character"]);
}

#[test]
fn a_parse_error_keeps_the_program_from_running() {
    let run = run("print 1;\nprint ;");
    assert!(run.output.is_empty());
    assert_eq!(run.exit_code, 65);
    assert_eq!(run.diagnostics, vec!["[line 2] Error : Expect expression."]);
}

#[test]
fn interpret_stops_at_its_limit() {
    let mut rlox = RLox::new();
    let program = rlox.run("while (true) {}".to_string()).unwrap();
    let mut interpreter = Interpreter::new(&program);
    assert_eq!(interpreter.interpret(0), Step::Continue);
    assert_eq!(interpreter.interpret(1000), Step::Continue);
    assert_eq!(interpreter.step(), Step::Continue);
}

#[test]
fn a_finished_program_stays_finished() {
    let mut rlox = RLox::new();
    let program = rlox.run("print \"x\";".to_string()).unwrap();
    let mut interpreter = Interpreter::new(&program);
    assert_eq!(interpreter.interpret(1000), Step::Print("x".to_string()));
    assert_eq!(interpreter.interpret(1000), Step::Finished);
    assert_eq!(interpreter.step(), Step::Finished);
}

#[test]
fn a_number_literal_asks_the_host_for_its_value() {
    let mut rlox = RLox::new();
    let program = rlox.run("print 15.28;".to_string()).unwrap();
    let mut interpreter = Interpreter::new(&program);
    assert_eq!(interpreter.interpret(1000), Step::ParseNumber("15.28".to_string()));
    interpreter.supply(15.28f64.to_bits());
    assert_eq!(interpreter.interpret(1000), Step::PrintNumber(15.28f64.to_bits()));
    assert_eq!(interpreter.interpret(1000), Step::Finished);
}

#[test]
fn subtraction_asks_the_host_with_the_operands_in_order() {
    let mut rlox = RLox::new();
    let program = rlox.run("print 7 - 2;".to_string()).unwrap();
    let mut interpreter = Interpreter::new(&program);
    assert_eq!(interpreter.interpret(1000), Step::ParseNumber("7".to_string()));
    interpreter.supply(7f64.to_bits());
    assert_eq!(interpreter.interpret(1000), Step::ParseNumber("2".to_string()));
    interpreter.supply(2f64.to_bits());
    assert_eq!(
        interpreter.interpret(1000),
        Step::Arithmetic { operator: ArithmeticOperator::Subtract, left: 7f64.to_bits(), right: 2f64.to_bits() }
    );
    interpreter.supply(5f64.to_bits());
    assert_eq!(interpreter.interpret(1000), Step::PrintNumber(5f64.to_bits()));
}

#[test]
fn a_step_without_its_operand_is_stuck() {
    let mut rlox = RLox::new();
    let program = rlox.run("print 1;".to_string()).unwrap();
    let mut interpreter = Interpreter::new(&program);
    assert_eq!(interpreter.interpret(1000), Step::ParseNumber("1".to_string()));
    // The host does not supply the number.
    assert_eq!(interpreter.interpret(1000), Step::Failed(RuntimeError::Stuck));
    assert_eq!(interpreter.interpret(1000), Step::Finished);
}

#[test]
fn truthiness_equality_and_text_of_values() {
    assert!(!Interpreter::is_truthy(&Value::Null));
    assert!(!Interpreter::is_truthy(&Value::Boolean(false)));
    assert!(Interpreter::is_truthy(&Value::Boolean(true)));
    assert!(Interpreter::is_truthy(&Value::Number(0f64.to_bits())));
    assert!(Interpreter::is_truthy(&Value::String(String::new())));

    assert!(Interpreter::is_equal(&Value::Null, &Value::Null));
    assert!(!Interpreter::is_equal(&Value::Null, &Value::Boolean(false)));
    assert!(!Interpreter::is_equal(&Value::Boolean(false), &Value::Null));
    assert!(Interpreter::is_equal(&Value::Number(1f64.to_bits()), &Value::Number(1f64.to_bits())));
    assert!(Interpreter::is_equal(&Value::Number(0f64.to_bits()), &Value::Number((-0f64).to_bits())));
    assert!(!Interpreter::is_equal(&Value::Number(f64::NAN.to_bits()), &Value::Number(f64::NAN.to_bits())));
    assert!(!Interpreter::is_equal(&Value::Number(1f64.to_bits()), &Value::String("1".to_string())));
    assert!(Interpreter::is_equal(&Value::String("a".to_string()), &Value::String("a".to_string())));
    assert!(!Interpreter::is_equal(&Value::String("a".to_string()), &Value::String("b".to_string())));

    assert_eq!(Interpreter::stringify(&Value::Null), Some("nil".to_string()));
    assert_eq!(Interpreter::stringify(&Value::Boolean(true)), Some("true".to_string()));
    assert_eq!(Interpreter::stringify(&Value::Boolean(false)), Some("false".to_string()));
    assert_eq!(Interpreter::stringify(&Value::String("s".to_string())), Some("s".to_string()));
    assert_eq!(Interpreter::stringify(&Value::Number(1f64.to_bits())), None);

    assert_eq!(Interpreter::check_number_operand(&Value::Number(7)), Some(7));
    assert_eq!(Interpreter::check_number_operand(&Value::Null), None);
    assert_eq!(Interpreter::check_number_operands(&Value::Number(7), &Value::Number(8)), Some((7, 8)));
    assert_eq!(Interpreter::check_number_operands(&Value::Number(7), &Value::Boolean(true)), None);
}

#[test]
fn execute_block_runs_statements_in_the_given_scope() {
    let mut rlox = RLox::new();
    let program = rlox.run("var a = \"global\";".to_string()).unwrap();
    let more = rlox.run("print a; var b = a; print b;".to_string()).unwrap();
    let mut interpreter = Interpreter::new(&program);
    assert_eq!(interpreter.interpret(1000), Step::Finished);
    interpreter.execute_block(&more, 0);
    assert_eq!(interpreter.interpret(1000), Step::Print("global".to_string()));
    assert_eq!(interpreter.interpret(1000), Step::Print("global".to_string()));
    assert_eq!(interpreter.interpret(1000), Step::Finished);
}

#[test]
fn deep_recursion_unwinds() {
    assert_eq!(
        prints("fun count(n) { if (n == 0) return 0; return 1 + count(n - 1); } print count(500);"),
        vec!["500"]
    );
}

#[test]
fn a_loop_that_returns_leaves_its_function_only() {
    assert_eq!(
        prints(
            "fun first(limit) { for (var i = 0; i < limit; i = i + 1) { if (i == 3) return i; } return -1; } print first(10); print first(2);"
        ),
        vec!["3", "-1"]
    );
}

#[test]
fn two_counters_do_not_share_their_state() {
    assert_eq!(
        prints(
            "fun makeCounter(){ var i=0; fun c(){ i=i+1; return i; } return c; } var a=makeCounter(); var b=makeCounter(); print a(); print a(); print b(); print a();"
        ),
        vec!["1", "2", "1", "3"]
    );
}

#[test]
fn a_node_with_a_token_that_is_no_operator_is_rejected() {
    let plus = Token::new(TokenType::Plus, "+".to_string(), Object::Null, 3);
    let bang = Token::new(TokenType::Bang, "!".to_string(), Object::Null, 4);
    let nil = || Box::new(Expr::Literal { value: Object::Null });
    let unary = vec![Stmt::Print { expr: Box::new(Expr::Unary { right: nil(), operator: plus }) }];
    let mut interpreter = Interpreter::new(&unary);
    assert_eq!(interpreter.interpret(1000), Step::Failed(RuntimeError::InvalidOperator { line: 3 }));
    let binary =
        vec![Stmt::Print { expr: Box::new(Expr::Binary { left: nil(), operator: bang, right: nil() }) }];
    let mut interpreter = Interpreter::new(&binary);
    assert_eq!(interpreter.interpret(1000), Step::Failed(RuntimeError::InvalidOperator { line: 4 }));
    assert_eq!(RuntimeError::InvalidOperator { line: 4 }.message(), "Unexpected token.");
}

#[test]
fn conclude_ends_the_run_on_finish_and_failure_only() {
    let mut rlox = RLox::new();
    assert!(!rlox.conclude(&Step::Continue));
    assert!(!rlox.conclude(&Step::Print("x".to_string())));
    assert!(!rlox.conclude(&Step::Clock));
    assert!(rlox.conclude(&Step::Finished));
    assert!(!rlox.had_error());
    assert!(rlox.conclude(&Step::Failed(RuntimeError::NotCallable { line: 2 })));
    assert!(rlox.had_error());
    assert_eq!(rlox.exit_code(), 65);
    assert_eq!(rlox.diagnostics(), &vec!["[line 2] Error : Can only call functions and classes".to_string()]);
}
