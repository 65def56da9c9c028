use envsubst::extract_variables;
use envsubst::get_substitution_value;
use envsubst::substitute;
use envsubst::Environment;

#[test]
fn test_greeting_with_user_and_home() {
    let mut env = Environment::new();
    env.set("USER".to_string(), "bob".to_string());
    env.set("HOME".to_string(), "/h/b".to_string());
    let result = substitute("Hello $USER, home ${HOME}", None, &env);
    assert_eq!(result, "Hello bob, home /h/b");
}

#[test]
fn test_format_string_restricts_substitution() {
    let mut env = Environment::new();
    env.set("A".to_string(), "1".to_string());
    env.set("B".to_string(), "2".to_string());
    env.set("C".to_string(), "3".to_string());
    let result = substitute("$A $B $C", Some("$A $C"), &env);
    assert_eq!(result, "1 $B 3");
}

#[test]
fn test_price_with_digits_is_unchanged() {
    let env = Environment::new();
    let result = substitute("Price: $100", None, &env);
    assert_eq!(result, "Price: $100");
}

#[test]
fn test_unterminated_brace_substitutes_whole_tail() {
    let mut env = Environment::new();
    env.set("VAR".to_string(), "x".to_string());
    let result = substitute("${VAR", None, &env);
    assert_eq!(result, "x");
}

#[test]
fn test_empty_braces_substitute_to_nothing() {
    let env = Environment::new();
    let result = substitute("${}", None, &env);
    assert_eq!(result, "");
}

#[test]
fn test_format_mode_lists_and_filters_consistently() {
    let mut env = Environment::new();
    env.set("HOME".to_string(), "/root".to_string());
    env.set("TERM".to_string(), "dumb".to_string());
    let format = "uses ${HOME} only";
    assert_eq!(extract_variables(format), vec!["HOME"]);
    let result = substitute("$HOME $TERM", Some(format), &env);
    assert_eq!(result, "/root $TERM");
}

#[test]
fn test_get_substitution_value_respects_filter() {
    let mut env = Environment::new();
    env.set("A".to_string(), "1".to_string());
    let allowed = vec!["A".to_string()];
    assert_eq!(
        get_substitution_value(&"A".to_string(), Some(&allowed), &env),
        Some("1".to_string())
    );
    assert_eq!(get_substitution_value(&"B".to_string(), Some(&allowed), &env), None);
    assert_eq!(
        get_substitution_value(&"B".to_string(), None, &env),
        Some("".to_string())
    );
}
