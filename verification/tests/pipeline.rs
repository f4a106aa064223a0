use lox_rs::error::LoxError;
use lox_rs::interpreter::{Interpreter, Outcome};
use lox_rs::parser::Parser;
use lox_rs::scanner::Scanner;

fn run(source: &str) -> (Vec<String>, Result<Outcome, LoxError>) {
    let mut scanner = Scanner::new(source.as_bytes().to_vec());
    let tokens = scanner.scan_tokens().expect("lexing failed");
    let mut parser = Parser::new(tokens);
    let statements = parser.parse().expect("parsing failed");
    let mut interpreter = Interpreter::new();
    let result = interpreter.interpret(&statements, 1_000_000);
    (interpreter.output.clone(), result)
}

fn run_outputs(source: &str) -> Vec<String> {
    let (outputs, result) = run(source);
    assert!(matches!(result, Ok(Outcome::Done)));
    outputs
}

fn run_error(source: &str) -> String {
    let (_, result) = run(source);
    match result {
        Err(LoxError::RunTimeError { msg, .. }) => msg,
        other => panic!("expected a runtime error, got {:?}", other),
    }
}

#[test]
fn addition_prints_three() {
    assert_eq!(run_outputs("print 1 + 2;"), vec!["3"]);
}

#[test]
fn string_concatenation() {
    assert_eq!(run_outputs("print \"a\" + \"b\";"), vec!["ab"]);
}

#[test]
fn mixed_plus_operands_fail() {
    let msg = run_error("print \"a\" + 1;");
    assert!(msg.contains("must both be numbers or both be strings."));
    assert_eq!(msg, "string and number must both be numbers or both be strings.");
}

#[test]
fn cross_kind_equality_never_errors() {
    assert_eq!(run_outputs("print 1 == 1.0;"), vec!["true"]);
    assert_eq!(run_outputs("print 1 == \"1\";"), vec!["false"]);
    assert_eq!(run_outputs("print nil == nil;"), vec!["true"]);
    assert_eq!(run_outputs("print 1 != \"1\";"), vec!["true"]);
}

#[test]
fn block_shadowing() {
    assert_eq!(
        run_outputs("var x = 1; { var x = 2; print x; } print x;"),
        vec!["2", "1"]
    );
}

#[test]
fn outward_assignment() {
    assert_eq!(run_outputs("var x = 1; { x = 2; } print x;"), vec!["2"]);
}

#[test]
fn or_short_circuits_past_undefined() {
    assert_eq!(run_outputs("print true or x;"), vec!["true"]);
}

#[test]
fn and_short_circuits_past_undefined() {
    assert_eq!(run_outputs("print false and x;"), vec!["false"]);
}

#[test]
fn while_loop_counts() {
    assert_eq!(
        run_outputs("var i = 0; while (i < 3) { print i; i = i + 1; }"),
        vec!["0", "1", "2"]
    );
}

#[test]
fn unterminated_string_reports_final_line() {
    let mut scanner = Scanner::new("\"abc\ndef".as_bytes().to_vec());
    let errors = scanner.scan_tokens().expect_err("should fail");
    assert_eq!(errors.len(), 1);
    match &errors[0] {
        LoxError::LexError { msg, line, .. } => {
            assert_eq!(msg, "Unterminated string.");
            assert_eq!(*line, 2);
        }
        other => panic!("expected a lexical error, got {:?}", other),
    }
}

#[test]
fn two_invalid_characters_give_two_errors() {
    let mut scanner = Scanner::new("#\n@".as_bytes().to_vec());
    let errors = scanner.scan_tokens().expect_err("should fail");
    assert_eq!(errors.len(), 2);
    match (&errors[0], &errors[1]) {
        (
            LoxError::LexError { ch: a, line: l1, .. },
            LoxError::LexError { ch: b, line: l2, .. },
        ) => {
            assert_eq!((*a, *l1), ('#', 1));
            assert_eq!((*b, *l2), ('@', 2));
        }
        other => panic!("expected two lexical errors, got {:?}", other),
    }
}

#[test]
fn undefined_variable_message() {
    let msg = run_error("print y;");
    assert!(msg.contains("Undefined variable 'y'."));
}

#[test]
fn error_renders_with_line_number() {
    let (_, result) = run("print 1;\nprint y;");
    let err = result.expect_err("should fail");
    assert_eq!(err.render(), "[line 2] RunTimeError Undefined variable 'y'.");
}

#[test]
fn arithmetic_operators() {
    assert_eq!(run_outputs("print 5 - 2;"), vec!["3"]);
    assert_eq!(run_outputs("print 2 * 3;"), vec!["6"]);
    assert_eq!(run_outputs("print 6 / 2;"), vec!["3"]);
    assert_eq!(run_outputs("print 7 / 2;"), vec!["3.5"]);
}

#[test]
fn unary_operators() {
    assert_eq!(run_outputs("print -3;"), vec!["-3"]);
    assert_eq!(run_outputs("print -(1 + 2);"), vec!["-3"]);
    assert_eq!(run_outputs("print !true;"), vec!["false"]);
    assert_eq!(run_outputs("print !nil;"), vec!["true"]);
    let msg = run_error("print -\"a\";");
    assert_eq!(msg, "string must be a number.");
}

#[test]
fn comparison_operators() {
    assert_eq!(run_outputs("print 1 < 2;"), vec!["true"]);
    assert_eq!(run_outputs("print 2 <= 1;"), vec!["false"]);
    assert_eq!(run_outputs("print 3 > 2;"), vec!["true"]);
    assert_eq!(run_outputs("print 2 >= 3;"), vec!["false"]);
    let msg = run_error("print 1 < \"a\";");
    assert_eq!(msg, "number and string must be numbers.");
}

#[test]
fn literals_print_their_spellings() {
    assert_eq!(run_outputs("print nil;"), vec!["nil"]);
    assert_eq!(run_outputs("print true;"), vec!["true"]);
    assert_eq!(run_outputs("print \"hello\";"), vec!["hello"]);
    assert_eq!(run_outputs("print 0.5;"), vec!["0.5"]);
}

#[test]
fn zero_is_truthy() {
    assert_eq!(run_outputs("if (0) print 1; else print 2;"), vec!["1"]);
    assert_eq!(run_outputs("if (false) print 1; else print 2;"), vec!["2"]);
}

#[test]
fn assignment_yields_assigned_value() {
    assert_eq!(run_outputs("var x = 1; print x = 5;"), vec!["5"]);
}

#[test]
fn var_without_initializer_binds_nothing() {
    let msg = run_error("var x; print x;");
    assert!(msg.contains("Undefined variable 'x'."));
}

#[test]
fn missing_semicolon_is_a_parse_error() {
    let mut scanner = Scanner::new("print 1".as_bytes().to_vec());
    let tokens = scanner.scan_tokens().expect("lexing failed");
    let mut parser = Parser::new(tokens);
    let err = parser.parse().expect_err("should fail");
    match err {
        LoxError::ParseError { msg, line } => {
            assert_eq!(msg, "Expect ';' after value.");
            assert_eq!(line, 1);
        }
        other => panic!("expected a parse error, got {:?}", other),
    }
}

#[test]
fn invalid_assignment_target() {
    let mut scanner = Scanner::new("1 = 2;".as_bytes().to_vec());
    let tokens = scanner.scan_tokens().expect("lexing failed");
    let mut parser = Parser::new(tokens);
    let err = parser.parse().expect_err("should fail");
    match err {
        LoxError::ParseError { msg, .. } => assert_eq!(msg, "Invalid assignment target."),
        other => panic!("expected a parse error, got {:?}", other),
    }
}

#[test]
fn comments_and_whitespace_are_skipped() {
    assert_eq!(
        run_outputs("// a comment\nprint 1; // trailing\nprint 2;"),
        vec!["1", "2"]
    );
}

#[test]
fn division_by_zero_is_infinite() {
    assert_eq!(run_outputs("print 1 / 0;"), vec!["inf"]);
    assert_eq!(run_outputs("print -1 / 0;"), vec!["-inf"]);
}

#[test]
fn fuel_exhaustion_is_reported() {
    let mut scanner = Scanner::new("var i = 0; while (true) { i = i + 1; }".as_bytes().to_vec());
    let tokens = scanner.scan_tokens().expect("lexing failed");
    let mut parser = Parser::new(tokens);
    let statements = parser.parse().expect("parsing failed");
    let mut interpreter = Interpreter::new();
    let result = interpreter.interpret(&statements, 1000);
    assert!(matches!(result, Ok(Outcome::OutOfFuel)));
}

#[test]
fn nested_blocks_restore_scopes() {
    assert_eq!(
        run_outputs("var a = 1; { var a = 2; { var a = 3; print a; } print a; } print a;"),
        vec!["3", "2", "1"]
    );
}

#[test]
fn lexical_error_renders_with_character() {
    let mut scanner = Scanner::new("@".as_bytes().to_vec());
    let errors = scanner.scan_tokens().expect_err("should fail");
    assert_eq!(errors.len(), 1);
    assert_eq!(
        errors[0].render(),
        "[line 1] LexError `@` Unexpected character."
    );
}

#[test]
fn multi_line_string_counts_lines() {
    assert_eq!(run_outputs("print \"x\ny\";"), vec!["x\ny"]);
}
