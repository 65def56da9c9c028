use envsubst::consume_until;
use envsubst::consume_var_name;
use envsubst::is_var_char;
use envsubst::is_var_start;
use envsubst::parse_variable;
use envsubst::reconstruct_variable;
use envsubst::should_substitute;

#[test]
fn test_is_var_start() {
    assert!(is_var_start('a'));
    assert!(is_var_start('Z'));
    assert!(is_var_start('_'));
    assert!(!is_var_start('1'));
    assert!(!is_var_start('-'));
    assert!(!is_var_start('$'));
}

#[test]
fn test_is_var_char() {
    assert!(is_var_char('a'));
    assert!(is_var_char('Z'));
    assert!(is_var_char('_'));
    assert!(is_var_char('0'));
    assert!(is_var_char('9'));
    assert!(!is_var_char('-'));
    assert!(!is_var_char('$'));
    assert!(!is_var_char(' '));
}

#[test]
fn test_parse_bare_reference() {
    let r = parse_variable("VAR-rest", 0);
    assert_eq!(r, Some(("VAR".to_string(), false, 3)));
}

#[test]
fn test_parse_braced_reference() {
    let r = parse_variable("{HOME}s", 0);
    assert_eq!(r, Some(("HOME".to_string(), true, 6)));
}

#[test]
fn test_parse_no_reference_on_digit() {
    assert_eq!(parse_variable("100", 0), None);
}

#[test]
fn test_parse_no_reference_at_end() {
    assert_eq!(parse_variable("abc", 3), None);
}

#[test]
fn test_parse_unterminated_brace_takes_rest() {
    let r = parse_variable("{VAR", 0);
    assert_eq!(r, Some(("VAR".to_string(), true, 4)));
}

#[test]
fn test_consume_until_finds_delimiter() {
    assert_eq!(consume_until("abc}def", 0, '}'), ("abc".to_string(), 4));
}

#[test]
fn test_consume_until_without_delimiter_takes_rest() {
    assert_eq!(consume_until("abcdef", 2, '}'), ("cdef".to_string(), 6));
}

#[test]
fn test_consume_var_name_maximal_run() {
    assert_eq!(consume_var_name("ab9_-x", 0), ("ab9_".to_string(), 4));
}

#[test]
fn test_reconstruct_bare_and_braced() {
    assert_eq!(reconstruct_variable("NAME", false), "$NAME");
    assert_eq!(reconstruct_variable("NAME", true), "${NAME}");
    assert_eq!(reconstruct_variable("", true), "${}");
}

#[test]
fn test_should_substitute_open_and_closed_policy() {
    let allowed = vec!["A".to_string(), "B".to_string()];
    assert!(should_substitute(&"X".to_string(), None));
    assert!(should_substitute(&"A".to_string(), Some(&allowed)));
    assert!(!should_substitute(&"X".to_string(), Some(&allowed)));
}
