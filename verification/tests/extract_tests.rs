use envsubst::extract_variables;

#[test]
fn test_extract_variables_simple() {
    let input = "Hello $USER, your home is $HOME";
    let vars = extract_variables(input);
    assert_eq!(vars, vec!["HOME", "USER"]);
}

#[test]
fn test_extract_variables_braced() {
    let input = "Path: ${PATH}, Shell: ${SHELL}";
    let vars = extract_variables(input);
    assert_eq!(vars, vec!["PATH", "SHELL"]);
}

#[test]
fn test_extract_variables_mixed() {
    let input = "$USER lives in ${HOME} and uses $SHELL";
    let vars = extract_variables(input);
    assert_eq!(vars, vec!["HOME", "SHELL", "USER"]);
}

#[test]
fn test_extract_variables_duplicates() {
    let input = "$USER and $USER again";
    let vars = extract_variables(input);
    assert_eq!(vars, vec!["USER"]);
}

#[test]
fn test_extract_variables_empty() {
    let input = "No variables here";
    let vars = extract_variables(input);
    assert!(vars.is_empty());
}

#[test]
fn test_extract_variables_invalid() {
    let input = "$ $123 ${} $";
    let vars = extract_variables(input);
    assert!(vars.is_empty());
}

#[test]
fn test_extract_duplicates_collapse_across_forms() {
    let vars = extract_variables("$A $A ${A}");
    assert_eq!(vars, vec!["A"]);
}

#[test]
fn test_extract_sorted_by_codepoint() {
    let vars = extract_variables("$Z $a $A");
    assert_eq!(vars, vec!["A", "Z", "a"]);
}

#[test]
fn test_extract_mixed_forms_of_two_names() {
    let vars = extract_variables("$A and $A and ${B}");
    assert_eq!(vars, vec!["A", "B"]);
}

#[test]
fn test_extract_bare_name_stops_at_non_name_char() {
    let vars = extract_variables("$AB9_x-tail");
    assert_eq!(vars, vec!["AB9_x"]);
}

#[test]
fn test_extract_unterminated_brace_takes_rest() {
    let vars = extract_variables("head ${TAIL VAR");
    assert_eq!(vars, vec!["TAIL VAR"]);
}
