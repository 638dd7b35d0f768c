use lox::environment::Enviornment;
use lox::lox::{Lox, LoxFailure, LoxOptions};
use lox::numbers::LoxNum;
use lox::tokens::{Token, TokenType};
use lox::values::Object;

fn run_program(source: &str) -> (Vec<String>, Result<(), LoxFailure>) {
    let mut lox = Lox::new(LoxOptions { debug_ast: false });
    let r = lox.run(source.to_string());
    (lox.output, r)
}

fn run_ok(source: &str) -> Vec<String> {
    let (output, r) = run_program(source);
    assert!(r.is_ok(), "program failed: {:?}", r);
    output
}

#[test]
fn addition_of_numbers() {
    assert_eq!(run_ok("print 1 + 2;"), vec!["3"]);
}

#[test]
fn addition_of_strings_concatenates() {
    assert_eq!(run_ok("print \"a\" + \"b\";"), vec!["ab"]);
}

#[test]
fn addition_of_mixed_types_is_an_error() {
    let (output, r) = run_program("print 1 + \"a\";");
    assert!(output.is_empty());
    assert!(matches!(r, Err(LoxFailure::RuntimeFailed(_))));
}

#[test]
fn truthiness_of_nil_and_false() {
    assert_eq!(run_ok("print !nil; print !false;"), vec!["true", "true"]);
}

#[test]
fn zero_and_empty_string_are_truthy() {
    assert_eq!(run_ok("print !0; print !\"\";"), vec!["false", "false"]);
}

#[test]
fn equality_is_structural() {
    assert_eq!(
        run_ok("print nil == nil; print nil == false; print 1 == 1.0;"),
        vec!["true", "false", "true"]
    );
}

#[test]
fn block_scoping_shadows_and_restores() {
    assert_eq!(
        run_ok("var a = 1; { var a = 2; print a; } print a;"),
        vec!["2", "1"]
    );
}

#[test]
fn closure_observes_captured_variable_after_return() {
    let src = "fun outer() { var x = 10; fun inner() { print x; } return inner; }\n\
               var f = outer();\n\
               f();";
    assert_eq!(run_ok(src), vec!["10"]);
}

#[test]
fn closure_keeps_its_own_environment() {
    let src = "fun make(start) { fun get() { print start; } return get; }\n\
               var a = make(1);\n\
               var b = make(2);\n\
               a(); b(); a();";
    assert_eq!(run_ok(src), vec!["1", "2", "1"]);
}

#[test]
fn for_loop_prints_each_index() {
    assert_eq!(
        run_ok("for (var i = 0; i < 3; i = i + 1) print i;"),
        vec!["0", "1", "2"]
    );
}

#[test]
fn while_loop_runs_until_condition_fails() {
    assert_eq!(
        run_ok("var i = 0; while (i < 2) { print i; i = i + 1; }"),
        vec!["0", "1"]
    );
}

#[test]
fn undefined_variable_read_stops_execution() {
    let mut lox = Lox::new(LoxOptions { debug_ast: false });
    let r = lox.run("print x;\nprint 1;".to_string());
    assert!(matches!(r, Err(LoxFailure::RuntimeFailed(_))));
    assert!(lox.output.is_empty());
    assert_eq!(
        lox.runtime_message.as_deref(),
        Some("Undefined variable 'x'.\n[line 1]")
    );
}

#[test]
fn undefined_variable_assignment_is_an_error() {
    let mut lox = Lox::new(LoxOptions { debug_ast: false });
    let r = lox.run("y = 3;".to_string());
    assert!(matches!(r, Err(LoxFailure::RuntimeFailed(_))));
    assert_eq!(
        lox.runtime_message.as_deref(),
        Some("Undefined variable 'y'.\n[line 1]")
    );
}

#[test]
fn unterminated_string_fails_the_scan() {
    let mut lox = Lox::new(LoxOptions { debug_ast: false });
    let r = lox.run("\"unterminated".to_string());
    assert!(matches!(r, Err(LoxFailure::ScanFailed(_))));
    assert_eq!(lox.reports.len(), 1);
    assert_eq!(lox.reports[0], "[line 1] Error: Unterminated string.");
}

#[test]
fn recursive_fibonacci_is_correct() {
    let src = "fun fib(n) { if (n < 2) return n; return fib(n - 1) + fib(n - 2); }\n\
               print fib(20);";
    assert_eq!(run_ok(src), vec!["6765"]);
}

#[test]
fn division_yields_exact_decimals() {
    assert_eq!(run_ok("print 1 / 2; print 3 / 4;"), vec!["0.5", "0.75"]);
}

#[test]
fn division_by_zero_is_an_error() {
    let mut lox = Lox::new(LoxOptions { debug_ast: false });
    let r = lox.run("print 1 / 0;".to_string());
    assert!(matches!(r, Err(LoxFailure::RuntimeFailed(_))));
    assert_eq!(
        lox.runtime_message.as_deref(),
        Some("Division by zero.\n[line 1]")
    );
}

#[test]
fn numeric_overflow_is_an_error() {
    let mut lox = Lox::new(LoxOptions { debug_ast: false });
    let r = lox.run("print 9223372036854775807 + 1;".to_string());
    assert!(matches!(r, Err(LoxFailure::RuntimeFailed(_))));
    assert_eq!(
        lox.runtime_message.as_deref(),
        Some("Numeric overflow.\n[line 1]")
    );
}

#[test]
fn arity_mismatch_is_an_error() {
    let mut lox = Lox::new(LoxOptions { debug_ast: false });
    let r = lox.run("fun f(a) { print a; } f(1, 2);".to_string());
    assert!(matches!(r, Err(LoxFailure::RuntimeFailed(_))));
}

#[test]
fn calling_a_non_callable_is_an_error() {
    let mut lox = Lox::new(LoxOptions { debug_ast: false });
    let r = lox.run("1();".to_string());
    assert!(matches!(r, Err(LoxFailure::RuntimeFailed(_))));
}

#[test]
fn logical_operators_short_circuit() {
    assert_eq!(
        run_ok("print false or 2; print nil and 3; print 1 or x; print false and x;"),
        vec!["2", "nil", "1", "false"]
    );
}

#[test]
fn comparison_operators_on_numbers() {
    assert_eq!(
        run_ok("print 1 < 2; print 2 <= 2; print 3 > 4; print 4 >= 4;"),
        vec!["true", "true", "false", "true"]
    );
}

#[test]
fn precedence_multiplication_before_addition() {
    assert_eq!(run_ok("print 1 + 2 * 3; print (1 + 2) * 3;"), vec!["7", "9"]);
}

#[test]
fn unary_minus_negates_numbers() {
    assert_eq!(run_ok("print -3; print --3; print -(1 + 2);"), vec!["-3", "3", "-3"]);
}

#[test]
fn value_display_forms() {
    assert_eq!(
        run_ok("print nil; print true; print false; print \"raw\"; print 1.50;"),
        vec!["nil", "true", "false", "raw", "1.5"]
    );
}

#[test]
fn callable_prints_as_placeholder() {
    assert_eq!(run_ok("fun f() {} print f;"), vec!["...calable..."]);
}

#[test]
fn clock_builtin_returns_a_number() {
    let output = run_ok("var t = clock(); print t >= 0;");
    assert_eq!(output, vec!["true"]);
}

#[test]
fn recursion_can_see_its_own_name() {
    assert_eq!(
        run_ok("fun count(n) { if (n > 0) { count(n - 1); print n; } } count(3);"),
        vec!["1", "2", "3"]
    );
}

#[test]
fn return_without_value_yields_nil() {
    assert_eq!(run_ok("fun f() { return; } print f();"), vec!["nil"]);
}

#[test]
fn environment_define_assign_get() {
    let mut env = Enviornment::new();
    env.define("a".to_string(), Object::Number(LoxNum { num: 5, den: 1 }));
    env.push_scope();
    assert!(env.assign("a".to_string(), Object::Boolean(true)).is_ok());
    match env.get("a") {
        Ok(Object::Boolean(b)) => assert!(b),
        other => panic!("unexpected: {:?}", other),
    }
    env.pop_scope();
    assert!(env.get("missing").is_err());
    assert!(env
        .assign("missing".to_string(), Object::Nil)
        .is_err());
}

#[test]
fn number_value_equality_ignores_representation() {
    let half_a = LoxNum { num: 1, den: 2 };
    let half_b = LoxNum { num: 5, den: 10 };
    assert!(half_a.eq_value(half_b));
    assert!(half_a.lt_value(LoxNum { num: 2, den: 3 }));
    assert_eq!(half_a.checked_add(half_b), Some(LoxNum { num: 1, den: 1 }));
    assert_eq!(
        LoxNum { num: 1, den: 3 }.checked_mul(LoxNum { num: 3, den: 1 }),
        Some(LoxNum { num: 1, den: 1 })
    );
    assert_eq!(LoxNum { num: -3, den: 2 }.to_display(), "-1.5");
    assert_eq!(LoxNum { num: 20, den: 10 }.to_display(), "2");
}

#[test]
fn keyword_table_matches_scanner() {
    let kws = lox::tokens::keywords();
    assert_eq!(kws.len(), 16);
    assert_eq!(kws[0].0, "and");
    assert_eq!(kws[15].1, TokenType::WHILE);
}

#[test]
fn token_display_strings() {
    assert_eq!(TokenType::LESS_EQUAL.to_display_string(), "<=");
    assert_eq!(
        TokenType::NUMBER(LoxNum { num: 3, den: 2 }).to_display_string(),
        "1.5"
    );
    let t = Token {
        token_type: TokenType::WHILE,
        line: 7,
    };
    assert_eq!(t.to_display_string(), "while on line 7");
}

#[test]
fn repl_style_environment_persists_between_runs() {
    let mut lox = Lox::new(LoxOptions { debug_ast: false });
    let env = Enviornment::new();
    let (env, r1) = lox.run_with_env("var a = 41;".to_string(), env);
    assert!(r1.is_ok());
    let (_env, r2) = lox.run_with_env("print a + 1;".to_string(), env);
    assert!(r2.is_ok());
    assert_eq!(lox.output, vec!["42"]);
}
