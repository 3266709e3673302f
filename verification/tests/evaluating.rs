use minilox::parse;
use minilox::scan;
use minilox::Config;
use minilox::Environment;
use minilox::Error;
use minilox::ErrorState;
use minilox::ExecState;
use minilox::Expr;
use minilox::ExprData;
use minilox::Program;
use minilox::Value;

fn run(text: &str) -> (ExecState, Result<(), ErrorState>) {
    let program: Program = parse(scan(text, 0).unwrap()).unwrap();
    let mut state = ExecState::new(Config { file: None, debug_ast: false });
    let result = state.exec(program);
    (state, result)
}

fn runtime_message(result: Result<(), ErrorState>) -> String {
    match result.unwrap_err() {
        ErrorState::RuntimeErr(e) => e.render(),
        other => panic!("expected a runtime error, got {other:?}"),
    }
}

#[test]
fn adding_number_and_boolean_is_a_runtime_error() {
    let (_, result) = run("1 + true;");
    assert_eq!(
        runtime_message(result),
        "[0]: runtime error: can only add numbers or strings"
    );
}

#[test]
fn cross_type_equality_is_false_not_an_error() {
    let (state, result) = run("print 1 == \"1\";");
    assert!(result.is_ok());
    assert_eq!(state.output(), &vec!["false".to_string()]);
}

#[test]
fn variable_lifecycle_prints_two() {
    let (state, result) = run("var x = 1; print x + 1;");
    assert!(result.is_ok());
    assert_eq!(state.output(), &vec!["2".to_string()]);
}

#[test]
fn unbound_identifier_is_a_runtime_error() {
    let (state, result) = run("print x + 1;");
    assert_eq!(runtime_message(result), "[0]: runtime error: undefined variable");
    assert!(state.output().is_empty());
}

#[test]
fn literal_evaluates_the_same_twice() {
    let env = Environment::new();
    let literal = Expr::new(ExprData::NumberLiteral(2.5f32.to_bits()), 0);
    let first = literal.eval(&env).unwrap();
    let second = literal.eval(&env).unwrap();
    assert_eq!(first, second);

    let literal = Expr::new(ExprData::StringLiteral("abc".to_string()), 0);
    let first = literal.eval(&env).unwrap();
    let second = literal.eval(&env).unwrap();
    assert_eq!(first, second);
}

#[test]
fn runtime_error_stops_all_later_statements() {
    let (state, result) = run("print 1; print true + 2; print 3;");
    assert_eq!(
        runtime_message(result),
        "[0]: runtime error: can only add numbers or strings"
    );
    // output from before the failing statement is kept; nothing after it
    assert_eq!(state.output(), &vec!["1".to_string()]);
}

#[test]
fn later_statements_see_earlier_bindings() {
    let (state, result) = run("var x = 2; var y = x * 3; print y;");
    assert!(result.is_ok());
    assert_eq!(state.output(), &vec!["6".to_string()]);
}

#[test]
fn redeclaring_overwrites_the_binding() {
    let (state, result) = run("var x = 1; var x = 2; print x;");
    assert!(result.is_ok());
    assert_eq!(state.output(), &vec!["2".to_string()]);
}

#[test]
fn arithmetic_follows_the_operators() {
    let (state, result) = run("print 5 - 3; print 6 / 3; print 2 * 3; print 1 + 2;");
    assert!(result.is_ok());
    assert_eq!(
        state.output(),
        &vec![
            "2".to_string(),
            "2".to_string(),
            "6".to_string(),
            "3".to_string(),
        ]
    );
}

#[test]
fn division_by_zero_gives_an_infinity_not_an_error() {
    let (state, result) = run("print 1 / 0;");
    assert!(result.is_ok());
    assert_eq!(state.output().len(), 1);
    let rendered = &state.output()[0];
    assert!(rendered.contains("Inf"), "got {rendered}");
}

#[test]
fn string_concatenation() {
    let (state, result) = run("print \"foo\" + \"bar\";");
    assert!(result.is_ok());
    assert_eq!(state.output(), &vec!["foobar".to_string()]);
}

#[test]
fn comparisons_require_numbers() {
    let (state, result) = run("print 1 < 2; print 3 <= 3; print 2 > 1; print 1 >= 2;");
    assert!(result.is_ok());
    assert_eq!(
        state.output(),
        &vec![
            "true".to_string(),
            "true".to_string(),
            "true".to_string(),
            "false".to_string(),
        ]
    );

    let (_, result) = run("print true < false;");
    assert_eq!(
        runtime_message(result),
        "[0]: runtime error: can only compare numbers"
    );
}

#[test]
fn subtraction_of_strings_is_a_runtime_error() {
    let (_, result) = run("\"a\" - \"b\";");
    assert_eq!(
        runtime_message(result),
        "[0]: runtime error: can only subtract numbers"
    );
}

#[test]
fn multiplication_of_booleans_is_a_runtime_error() {
    let (_, result) = run("true * false;");
    assert_eq!(
        runtime_message(result),
        "[0]: runtime error: can only multiply numbers"
    );
}

#[test]
fn division_of_strings_is_a_runtime_error() {
    let (_, result) = run("\"a\" / \"b\";");
    assert_eq!(
        runtime_message(result),
        "[0]: runtime error: can only divide numbers"
    );
}

#[test]
fn unary_negation_and_inversion() {
    let (state, result) = run("print -2; print !true; print !!false;");
    assert!(result.is_ok());
    assert_eq!(
        state.output(),
        &vec!["-2".to_string(), "false".to_string(), "false".to_string()]
    );

    let (_, result) = run("-true;");
    assert_eq!(
        runtime_message(result),
        "[0]: runtime error: - can only be applied to numbers"
    );

    let (_, result) = run("!1;");
    assert_eq!(
        runtime_message(result),
        "[0]: runtime error: ! can only be applied to booleans"
    );
}

#[test]
fn equality_within_each_variant() {
    let (state, result) = run(
        "print 1 == 1; print \"a\" == \"a\"; print true == true; print nil == nil; print 1 != 2;",
    );
    assert!(result.is_ok());
    assert_eq!(
        state.output(),
        &vec![
            "true".to_string(),
            "true".to_string(),
            "true".to_string(),
            "true".to_string(),
            "true".to_string(),
        ]
    );
}

#[test]
fn values_render_their_printed_forms() {
    assert_eq!(Value::Nil.render(), "nil");
    assert_eq!(Value::Boolean(true).render(), "true");
    assert_eq!(Value::Boolean(false).render(), "false");
    assert_eq!(Value::String("raw text".to_string()).render(), "raw text");
    assert_eq!(Value::Number(2.0f32.to_bits()).render(), "2");
}

#[test]
fn number_equality_follows_the_format() {
    // the two zero encodings are equal; NaN equals nothing, itself included
    let zero = Value::Number(0.0f32.to_bits());
    let neg_zero = Value::Number((-0.0f32).to_bits());
    assert!(zero == neg_zero);
    let nan = Value::Number(f32::NAN.to_bits());
    assert!(nan != nan);
}

#[test]
fn environment_lookup_returns_latest_binding() {
    let mut env = Environment::new();
    assert!(env.get(&"x".to_string()).is_none());
    env.insert("x".to_string(), Value::Boolean(true));
    env.insert("x".to_string(), Value::Number(1.5f32.to_bits()));
    let got = env.get(&"x".to_string()).unwrap();
    assert_eq!(got, Value::Number(1.5f32.to_bits()));
}

#[test]
fn error_state_accumulates_until_runtime() {
    let mut st = ErrorState::new_scanner_state();
    assert!(st.is_ok());
    st.add(Error::scan_error("one".to_string(), 1));
    st.add(Error::scan_error("two".to_string(), 2));
    assert!(!st.is_ok());
    assert_eq!(st.render(), "[1]: scan error: one\n[2]: scan error: two\n");

    let mut st = ErrorState::new_parser_state();
    assert!(st.is_ok());
    st.add(Error::parse_error("bad".to_string(), 7));
    assert!(!st.is_ok());
    assert_eq!(st.render(), "[7]: parse error: bad\n");

    // a runtime error is terminal: nothing can be added to it
    let mut st = ErrorState::runtime_error("boom".to_string(), 3);
    assert!(!st.is_ok());
    st.add(Error::runtime_error("ignored".to_string(), 4));
    assert_eq!(st.render(), "[3]: runtime error: boom");
}

#[test]
fn environment_persists_across_runs_of_one_state() {
    let mut state = ExecState::new(Config { file: None, debug_ast: false });
    let program = parse(scan("var x = 41;", 0).unwrap()).unwrap();
    state.exec(program).unwrap();
    let program = parse(scan("print x + 1;", 1).unwrap()).unwrap();
    state.exec(program).unwrap();
    assert_eq!(state.output(), &vec!["42".to_string()]);
}

#[test]
fn run_drives_the_whole_pipeline() {
    let mut state = ExecState::new(Config { file: None, debug_ast: false });
    state.run("var greeting = \"hello\";", 0).unwrap();
    state.run("print greeting + \" world\";", 1).unwrap();
    assert_eq!(state.output(), &vec!["hello world".to_string()]);

    // scan and parse diagnostics come back without running anything
    let err = state.run("print @;", 2).unwrap_err();
    assert!(matches!(err, ErrorState::ScanErrs(_)));
    let err = state.run("print ;", 3).unwrap_err();
    assert!(matches!(err, ErrorState::ParseErrs(_)));
    assert_eq!(state.output(), &vec!["hello world".to_string()]);
}
