//! The reference scanner: given a position just after a `$`, recognize a
//! braced reference `${NAME}`, a bare reference `$NAME`, or nothing.
use vstd::prelude::*;
use vstd::string::*;

use crate::names::is_var_char;
use crate::names::is_var_start;
use crate::names::spec_is_var_char;
use crate::names::spec_is_var_start;

verus! {

/// Index of the first occurrence of `d` in `s` at or after `i`, or `s.len()`
/// if `d` does not occur there.
pub open spec fn delim_end(s: Seq<char>, i: int, d: char) -> int
    decreases s.len() - i,
{
    if i < 0 || i >= s.len() {
        s.len() as int
    } else if s[i] == d {
        i
    } else {
        delim_end(s, i + 1, d)
    }
}

/// End of the maximal run of name characters starting at `i`.
pub open spec fn name_end(s: Seq<char>, i: int) -> int
    decreases s.len() - i,
{
    if i < 0 || i >= s.len() {
        i
    } else if spec_is_var_char(s[i]) {
        name_end(s, i + 1)
    } else {
        i
    }
}

/// What the scanner yields at position `i`, where `i` is the index of the
/// character immediately after a `$`: `None` when no reference starts there,
/// or `Some((name, braced, next))` where `next` is the position of the first
/// character after the reference.
///
/// A braced reference takes everything up to the first `}` as the name, with
/// no validity check; if no `}` follows, the name runs to the end of the
/// text. A bare reference is a maximal nonempty run of name characters
/// beginning with a name-start character.
pub open spec fn spec_parse_variable(s: Seq<char>, i: int) -> Option<(Seq<char>, bool, int)> {
    if i < 0 || i >= s.len() {
        None
    } else if s[i] == '{' {
        let j = delim_end(s, i + 1, '}');
        Some((s.subrange(i + 1, j), true, if j < s.len() { j + 1 } else { j }))
    } else if spec_is_var_start(s[i]) {
        Some((s.subrange(i, name_end(s, i)), false, name_end(s, i)))
    } else {
        None
    }
}

pub proof fn lemma_delim_end_props(s: Seq<char>, i: int, d: char)
    requires
        0 <= i <= s.len(),
    ensures
        i <= delim_end(s, i, d) <= s.len(),
        delim_end(s, i, d) < s.len() ==> s[delim_end(s, i, d)] == d,
        forall|k: int| i <= k < delim_end(s, i, d) ==> s[k] != d,
    decreases s.len() - i,
{
    if i < s.len() && s[i] != d {
        lemma_delim_end_props(s, i + 1, d);
    }
}

pub proof fn lemma_name_end_props(s: Seq<char>, i: int)
    requires
        0 <= i <= s.len(),
    ensures
        i <= name_end(s, i) <= s.len(),
        name_end(s, i) < s.len() ==> !spec_is_var_char(s[name_end(s, i)]),
        forall|k: int| i <= k < name_end(s, i) ==> spec_is_var_char(s[k]),
        i < s.len() && spec_is_var_char(s[i]) ==> i < name_end(s, i),
    decreases s.len() - i,
{
    if i < s.len() && spec_is_var_char(s[i]) {
        lemma_name_end_props(s, i + 1);
    }
}

/// A recognized reference begins right at `i` and ends at `next` with
/// `i < next`: the scanner always makes progress, and a bare name is
/// never empty.
pub proof fn lemma_parse_progress(s: Seq<char>, i: int)
    requires
        0 <= i,
    ensures
        spec_parse_variable(s, i) matches Some(t) ==> i < t.2 <= s.len() && (!t.1 ==> t.0.len()
            > 0),
{
    if i < s.len() {
        if s[i] == '{' {
            lemma_delim_end_props(s, i + 1, '}');
        } else if spec_is_var_start(s[i]) {
            lemma_name_end_props(s, i);
        }
    }
}

/// Consume characters from `pos` until the delimiter is found; return the
/// consumed text (delimiter excluded) and the position after the delimiter,
/// or the whole remaining text and `s@.len()` if the delimiter never occurs.
pub fn consume_until(s: &str, pos: usize, delimiter: char) -> (r: (String, usize))
    requires
        pos <= s@.len(),
    ensures
        r.0@ == s@.subrange(pos as int, delim_end(s@, pos as int, delimiter)),
        r.1 == if delim_end(s@, pos as int, delimiter) < s@.len() {
            delim_end(s@, pos as int, delimiter) + 1
        } else {
            delim_end(s@, pos as int, delimiter)
        },
{
    let n = s.unicode_len();
    let mut j: usize = pos;
    while j < n && s.get_char(j) != delimiter
        invariant
            pos <= j <= n,
            n == s@.len(),
            delim_end(s@, pos as int, delimiter) == delim_end(s@, j as int, delimiter),
        decreases n - j,
    {
        j = j + 1;
    }
    let name = String::from_str(s.substring_char(pos, j));
    proof {
        lemma_delim_end_props(s@, j as int, delimiter);
    }
    if j < n {
        (name, j + 1)
    } else {
        (name, j)
    }
}

/// Consume a maximal run of name characters (letters, digits, underscores)
/// from `pos`; return the run and the position after it.
pub fn consume_var_name(s: &str, pos: usize) -> (r: (String, usize))
    requires
        pos <= s@.len(),
    ensures
        r.0@ == s@.subrange(pos as int, name_end(s@, pos as int)),
        r.1 == name_end(s@, pos as int),
{
    let n = s.unicode_len();
    let mut j: usize = pos;
    while j < n && is_var_char(s.get_char(j))
        invariant
            pos <= j <= n,
            n == s@.len(),
            name_end(s@, pos as int) == name_end(s@, j as int),
        decreases n - j,
    {
        j = j + 1;
    }
    proof {
        lemma_name_end_props(s@, j as int);
    }
    (String::from_str(s.substring_char(pos, j)), j)
}

/// Parse a variable reference starting at `pos`, the position immediately
/// after a `$`. Returns `Some((name, braced, next))` where `braced`
/// distinguishes `${NAME}` from `$NAME` and `next` is the position after the
/// reference, or `None` when the `$` starts no reference.
pub fn parse_variable(s: &str, pos: usize) -> (r: Option<(String, bool, usize)>)
    requires
        pos <= s@.len(),
    ensures
        match spec_parse_variable(s@, pos as int) {
            Some(t) => r matches Some(e) && e.0@ == t.0 && e.1 == t.1 && e.2 == t.2 && pos < e.2
                <= s@.len(),
            None => r is None,
        },
{
    proof {
        lemma_parse_progress(s@, pos as int);
    }
    let n = s.unicode_len();
    if pos >= n {
        return None;
    }
    let ch = s.get_char(pos);
    if ch == '{' {
        let (var_name, next) = consume_until(s, pos + 1, '}');
        Some((var_name, true, next))
    } else if is_var_start(ch) {
        let (var_name, next) = consume_var_name(s, pos);
        if !var_name.as_str().is_empty() {
            Some((var_name, false, next))
        } else {
            proof {
                lemma_name_end_props(s@, pos as int);
            }
            None
        }
    } else {
        None
    }
}

} // verus!
