//! A verified environment-variable substitutor in the style of `envsubst`.
//!
//! The library scans a text for variable references written `$NAME` or
//! `${NAME}`, and either collects the distinct names referenced
//! ([`extract_variables`]) or rewrites the text, replacing each allowed
//! reference with the variable's value from a caller-supplied
//! [`Environment`] ([`substitute_variables`]). Malformed syntax never
//! fails: a `$` that starts no reference stays a literal `$`, and an
//! unterminated `${NAME` consumes the rest of the text as the name.

pub mod env;
pub mod extract;
pub mod laws;
pub mod names;
pub mod order;
pub mod scan;
pub mod subst;

pub use env::Environment;
pub use extract::extract_variables;
pub use names::is_var_char;
pub use names::is_var_start;
pub use scan::consume_until;
pub use scan::consume_var_name;
pub use scan::parse_variable;
pub use subst::get_substitution_value;
pub use subst::reconstruct_variable;
pub use subst::should_substitute;
pub use subst::substitute;
pub use subst::substitute_variables;
