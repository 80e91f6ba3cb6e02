use nlauncher::calculator::{
    evaluation_result, expression_body, is_calculator_query, looks_like_calculation,
    text_to_evaluate, Evaluation,
};
use numbat::module_importer::BuiltinModuleImporter;
use numbat::resolver::CodeSource;
use numbat::{Context, InterpreterResult};

fn fresh_evaluator() -> Context {
    Context::new(BuiltinModuleImporter::default())
}

fn evaluate_with(evaluator: &mut Context, expression: &str) -> Option<String> {
    let body = text_to_evaluate(expression)?;
    let evaluation = match evaluator.interpret(body, CodeSource::Text) {
        Ok((_, InterpreterResult::Value(value))) => Evaluation::Value(value.to_string()),
        Ok((_, InterpreterResult::Continue)) => Evaluation::Continue,
        Err(_) => Evaluation::Failed,
    };
    evaluation_result(evaluation)
}

#[test]
fn a_calculation_starts_with_an_equals_sign() {
    assert!(is_calculator_query("=1+1"));
    assert!(is_calculator_query("= 2 * 3"));
    assert!(is_calculator_query("="));
}

#[test]
fn white_space_before_the_equals_sign_does_not_count() {
    assert!(is_calculator_query("  =1"));
    assert!(is_calculator_query("\t=\n"));
    assert!(is_calculator_query("\u{a0}= 1"));
}

#[test]
fn anything_else_is_not_a_calculation() {
    assert!(!is_calculator_query("1+1"));
    assert!(!is_calculator_query("1 = 1"));
    assert!(!is_calculator_query(""));
    assert!(!is_calculator_query("   "));
    assert!(!is_calculator_query("firefox"));
}

#[test]
fn the_evaluated_text_loses_the_sign_and_the_surrounding_space() {
    assert_eq!(expression_body("= 1 + 1 "), "1 + 1");
    assert_eq!(expression_body("=2*3"), "2*3");
    assert_eq!(expression_body("  4 / 2  "), "4 / 2");
    assert_eq!(expression_body("="), "");
    assert_eq!(expression_body("=   "), "");
    assert_eq!(expression_body(""), "");
}

#[test]
fn only_a_sign_at_the_very_start_is_removed() {
    assert_eq!(expression_body(" =1"), "=1");
    assert_eq!(expression_body("==1"), "=1");
    assert_eq!(expression_body("1=1"), "1=1");
}

#[test]
fn a_value_is_shown_and_nothing_else_is() {
    assert_eq!(evaluation_result(Evaluation::Value("42".to_string())), Some("42".to_string()));
    assert_eq!(evaluation_result(Evaluation::Continue), None);
    assert_eq!(evaluation_result(Evaluation::Failed), None);
}

#[test]
fn text_is_handed_to_the_evaluator_only_if_something_is_left_of_it() {
    assert_eq!(text_to_evaluate("= 1 + 1 "), Some("1 + 1"));
    assert_eq!(text_to_evaluate("2*3"), Some("2*3"));
    assert_eq!(text_to_evaluate(" =1"), Some("=1"));
    assert_eq!(text_to_evaluate(""), None);
    assert_eq!(text_to_evaluate("="), None);
    assert_eq!(text_to_evaluate("=  \t "), None);
    assert_eq!(text_to_evaluate("   "), None);
}

#[test]
fn arithmetic_is_evaluated() {
    let mut evaluator = fresh_evaluator();
    assert_eq!(evaluate_with(&mut evaluator, "= 1 + 1"), Some("2".to_string()));
    assert_eq!(evaluate_with(&mut evaluator, "=6*7"), Some("42".to_string()));
    assert_eq!(evaluate_with(&mut evaluator, "2^10"), Some("1024".to_string()));
}

#[test]
fn an_empty_expression_has_no_result() {
    let mut evaluator = fresh_evaluator();
    assert_eq!(evaluate_with(&mut evaluator, ""), None);
    assert_eq!(evaluate_with(&mut evaluator, "="), None);
    assert_eq!(evaluate_with(&mut evaluator, "=   "), None);
}

#[test]
fn text_that_does_not_evaluate_has_no_result() {
    let mut evaluator = fresh_evaluator();
    assert_eq!(evaluate_with(&mut evaluator, "= 1 +"), None);
    assert_eq!(evaluate_with(&mut evaluator, "= )("), None);
    assert_eq!(evaluate_with(&mut evaluator, "= no_such_name"), None);
}

#[test]
fn a_definition_has_no_result_and_is_remembered() {
    let mut evaluator = fresh_evaluator();
    assert_eq!(evaluate_with(&mut evaluator, "= let answer = 40 + 2"), None);
    assert_eq!(evaluate_with(&mut evaluator, "= answer"), Some("42".to_string()));
}

#[test]
fn signs_of_arithmetic_look_like_a_calculation() {
    for input in ["1+1", "a-b", "2*3", "1/2", "(x", "x)", "2^8", "=1"] {
        assert!(looks_like_calculation(input, false), "{}", input);
    }
}

#[test]
fn a_number_looks_like_a_calculation_when_the_caller_says_it_is_one() {
    assert!(looks_like_calculation("12", true));
    assert!(!looks_like_calculation("12", false));
}

#[test]
fn unit_names_look_like_a_calculation() {
    for input in ["5 km", "3 kg", "10 cm", "100 USD", "5 EUR", "20 \u{b0}C", "70 \u{b0}F", "time", "gnu"] {
        assert!(looks_like_calculation(input, false), "{}", input);
    }
}

#[test]
fn plain_words_do_not_look_like_a_calculation() {
    for input in ["", "hello", "firefox", "usd", "KG", "\u{b0}", "C\u{b0}"] {
        assert!(!looks_like_calculation(input, false), "{:?}", input);
    }
}
