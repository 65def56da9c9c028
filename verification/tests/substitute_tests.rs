use envsubst::substitute_variables;
use envsubst::Environment;

#[test]
fn test_substitute_variables_simple() {
    let mut env = Environment::new();
    env.set("TEST_VAR".to_string(), "test_value".to_string());
    let input = "Value: $TEST_VAR";
    let result = substitute_variables(input, None, &env);
    assert_eq!(result, "Value: test_value");
}

#[test]
fn test_substitute_variables_braced() {
    let mut env = Environment::new();
    env.set("TEST_VAR".to_string(), "braced_value".to_string());
    let input = "Value: ${TEST_VAR}";
    let result = substitute_variables(input, None, &env);
    assert_eq!(result, "Value: braced_value");
}

#[test]
fn test_substitute_variables_undefined() {
    let env = Environment::new();
    let input = "Value: $UNDEFINED_VAR_12345";
    let result = substitute_variables(input, None, &env);
    assert_eq!(result, "Value: ");
}

#[test]
fn test_substitute_variables_mixed() {
    let mut env = Environment::new();
    env.set("VAR1".to_string(), "value1".to_string());
    env.set("VAR2".to_string(), "value2".to_string());
    let input = "$VAR1 and ${VAR2}";
    let result = substitute_variables(input, None, &env);
    assert_eq!(result, "value1 and value2");
}

#[test]
fn test_substitute_variables_with_filter() {
    let mut env = Environment::new();
    env.set("VAR1".to_string(), "value1".to_string());
    env.set("VAR2".to_string(), "value2".to_string());
    env.set("VAR3".to_string(), "value3".to_string());

    let allowed = vec!["VAR1".to_string(), "VAR3".to_string()];

    let input = "$VAR1 $VAR2 $VAR3";
    let result = substitute_variables(input, Some(&allowed), &env);
    assert_eq!(result, "value1 $VAR2 value3");
}

#[test]
fn test_substitute_variables_adjacent() {
    let mut env = Environment::new();
    env.set("A".to_string(), "foo".to_string());
    env.set("B".to_string(), "bar".to_string());
    let input = "$A$B";
    let result = substitute_variables(input, None, &env);
    assert_eq!(result, "foobar");
}

#[test]
fn test_substitute_variables_in_text() {
    let mut env = Environment::new();
    env.set("NAME".to_string(), "World".to_string());
    let input = "Hello, $NAME!";
    let result = substitute_variables(input, None, &env);
    assert_eq!(result, "Hello, World!");
}

#[test]
fn test_substitute_lone_dollar() {
    let env = Environment::new();
    let input = "Price: $100";
    let result = substitute_variables(input, None, &env);
    assert_eq!(result, "Price: $100");
}

#[test]
fn test_substitute_dollar_at_end() {
    let env = Environment::new();
    let input = "ends with $";
    let result = substitute_variables(input, None, &env);
    assert_eq!(result, "ends with $");
}

#[test]
fn test_empty_braces() {
    let env = Environment::new();
    let input = "${}";
    let result = substitute_variables(input, None, &env);
    assert_eq!(result, "");
}

#[test]
fn test_unclosed_braces() {
    let mut env = Environment::new();
    env.set("VAR".to_string(), "value".to_string());
    let input = "${VAR";
    let result = substitute_variables(input, None, &env);
    // Unclosed brace consumes rest of string as variable name
    assert_eq!(result, "value");
}

#[test]
fn test_variable_with_underscores_and_numbers() {
    let mut env = Environment::new();
    env.set("MY_VAR_123".to_string(), "test".to_string());
    let input = "$MY_VAR_123";
    let result = substitute_variables(input, None, &env);
    assert_eq!(result, "test");
}

#[test]
fn test_variable_stops_at_special_char() {
    let mut env = Environment::new();
    env.set("VAR".to_string(), "value".to_string());
    let input = "$VAR-suffix";
    let result = substitute_variables(input, None, &env);
    assert_eq!(result, "value-suffix");
}

#[test]
fn test_literal_text_passes_through_unchanged() {
    let mut env = Environment::new();
    env.set("X".to_string(), "y".to_string());
    let input = "plain text, no references at all";
    let result = substitute_variables(input, None, &env);
    assert_eq!(result, input);
}

#[test]
fn test_empty_filter_substitutes_nothing() {
    let mut env = Environment::new();
    env.set("A".to_string(), "1".to_string());
    env.set("B".to_string(), "2".to_string());
    let allowed: Vec<String> = Vec::new();
    let input = "$A ${B} $_c9 $ end";
    let result = substitute_variables(input, Some(&allowed), &env);
    assert_eq!(result, input);
}

#[test]
fn test_filtered_braced_reference_round_trips() {
    let mut env = Environment::new();
    env.set("SECRET".to_string(), "hidden".to_string());
    let allowed = vec!["OTHER".to_string()];
    let result = substitute_variables("${SECRET} $SECRET", Some(&allowed), &env);
    assert_eq!(result, "${SECRET} $SECRET");
}

#[test]
fn test_later_binding_shadows_earlier() {
    let mut env = Environment::new();
    env.set("A".to_string(), "first".to_string());
    env.set("A".to_string(), "second".to_string());
    let result = substitute_variables("$A", None, &env);
    assert_eq!(result, "second");
}

#[test]
fn test_dollar_before_invalid_char_resumes_scan() {
    let mut env = Environment::new();
    env.set("x".to_string(), "9".to_string());
    let result = substitute_variables("$-$x", None, &env);
    assert_eq!(result, "$-9");
}
