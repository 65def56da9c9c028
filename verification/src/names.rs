//! Character classes of the bare-reference grammar: which characters may
//! start a variable name and which may continue one.
use vstd::prelude::*;

verus! {

/// A character that may start a bare variable name: an ASCII letter or `_`.
pub open spec fn spec_is_var_start(c: char) -> bool {
    ('a' <= c && c <= 'z') || ('A' <= c && c <= 'Z') || c == '_'
}

/// A character that may continue a bare variable name: an ASCII letter,
/// an ASCII digit, or `_`.
pub open spec fn spec_is_var_char(c: char) -> bool {
    spec_is_var_start(c) || ('0' <= c && c <= '9')
}

/// Check if a character can start a variable name (letter or underscore).
pub fn is_var_start(ch: char) -> (r: bool)
    ensures
        r == spec_is_var_start(ch),
{
    ('a' <= ch && ch <= 'z') || ('A' <= ch && ch <= 'Z') || ch == '_'
}

/// Check if a character can be part of a variable name (letter, digit, or underscore).
pub fn is_var_char(ch: char) -> (r: bool)
    ensures
        r == spec_is_var_char(ch),
{
    is_var_start(ch) || ('0' <= ch && ch <= '9')
}

} // verus!
