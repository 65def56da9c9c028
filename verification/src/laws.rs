//! Properties of the scanner, the extractor and the substitutor, stated and
//! proved for all inputs.
use vstd::prelude::*;

use crate::extract::spec_vars;
use crate::names::spec_is_var_char;
use crate::names::spec_is_var_start;
use crate::scan::delim_end;
use crate::scan::lemma_delim_end_props;
use crate::scan::lemma_parse_progress;
use crate::scan::name_end;
use crate::scan::spec_parse_variable;
use crate::subst::allows;
use crate::subst::spec_reconstruct;
use crate::subst::spec_substitute;

verus! {

proof fn lemma_literal_suffix(s: Seq<char>, env: Seq<(Seq<char>, Seq<char>)>, i: int)
    requires
        0 <= i <= s.len(),
        forall|k: int| 0 <= k < s.len() ==> s[k] != '$',
    ensures
        spec_substitute(s, i, None, env) == s.subrange(i, s.len() as int),
        spec_vars(s, i) == Set::<Seq<char>>::empty(),
    decreases s.len() - i,
{
    if i == s.len() {
        assert(s.subrange(i, s.len() as int) =~= Seq::<char>::empty());
        assert(spec_vars(s, i) =~= Set::<Seq<char>>::empty());
    } else {
        lemma_literal_suffix(s, env, i + 1);
        assert(seq![s[i]] + s.subrange(i + 1, s.len() as int) =~= s.subrange(i, s.len() as int));
    }
}

/// On text that holds no `$`, substitution with no filter returns the text
/// unchanged, and no variable names are referenced.
pub proof fn lemma_literal_text_identity(s: Seq<char>, env: Seq<(Seq<char>, Seq<char>)>)
    requires
        forall|k: int| 0 <= k < s.len() ==> s[k] != '$',
    ensures
        spec_substitute(s, 0, None, env) == s,
        spec_vars(s, 0) == Set::<Seq<char>>::empty(),
{
    lemma_literal_suffix(s, env, 0);
    assert(s.subrange(0, s.len() as int) =~= s);
}

proof fn lemma_name_end_run(s: Seq<char>, i: int, j: int)
    requires
        0 <= i <= j <= s.len(),
        forall|k: int| i <= k < j ==> spec_is_var_char(s[k]),
        j == s.len() || !spec_is_var_char(s[j]),
    ensures
        name_end(s, i) == j,
    decreases j - i,
{
    if i < j {
        lemma_name_end_run(s, i + 1, j);
    }
}

/// A bare reference scans to exactly the maximal name: when `$` is followed
/// by the name `n` and then by a character that cannot continue a name (or
/// by the end of the text), the scanner yields `n` itself, not a longer or
/// shorter prefix.
pub proof fn lemma_bare_reference_exact(s: Seq<char>, i: int, n: Seq<char>)
    requires
        0 <= i,
        i + n.len() <= s.len(),
        n.len() > 0,
        spec_is_var_start(n[0]),
        forall|k: int| 0 <= k < n.len() ==> spec_is_var_char(n[k]),
        s.subrange(i, i + n.len()) == n,
        i + n.len() == s.len() || !spec_is_var_char(s[i + n.len()]),
    ensures
        spec_parse_variable(s, i) == Some((n, false, i + n.len())),
{
    assert forall|k: int| i <= k < i + n.len() implies spec_is_var_char(s[k]) by {
        assert(s[k] == s.subrange(i, i + n.len())[k - i]);
    }
    assert(s[i] == s.subrange(i, i + n.len())[0]);
    lemma_name_end_run(s, i, i + n.len());
    assert(s.subrange(i, name_end(s, i)) == n);
}

/// A reference whose name the filter does not allow is reproduced verbatim:
/// what substitution emits for it is exactly its original spelling in the
/// input (for a braced reference, provided its closing brace is there, since
/// an unterminated one is spelled back out with a closing brace added).
pub proof fn lemma_filtered_reference_round_trip(
    s: Seq<char>,
    i: int,
    n: Seq<char>,
    braced: bool,
    next: int,
    allow: Option<Set<Seq<char>>>,
    env: Seq<(Seq<char>, Seq<char>)>,
)
    requires
        0 <= i < s.len(),
        s[i] == '$',
        spec_parse_variable(s, i + 1) == Some((n, braced, next)),
        !allows(allow, n),
        braced ==> 0 <= next - 1 < s.len() && s[next - 1] == '}',
    ensures
        spec_reconstruct(n, braced) == s.subrange(i, next),
        spec_substitute(s, i, allow, env) == s.subrange(i, next) + spec_substitute(
            s,
            next,
            allow,
            env,
        ),
{
    lemma_parse_progress(s, i + 1);
    if braced {
        let j = delim_end(s, i + 2, '}');
        lemma_delim_end_props(s, i + 2, '}');
        assert(j < s.len()) by {
            if j >= s.len() {
                assert(next == j);
                if next - 1 >= i + 2 {
                    assert(s[next - 1] != '}');
                } else {
                    assert(next - 1 == i + 1 && s[i + 1] == '{');
                }
            }
        }
        assert(next == j + 1 && s[j] == '}');
        assert(spec_reconstruct(n, true) =~= s.subrange(i, next));
    } else {
        assert(n == s.subrange(i + 1, name_end(s, i + 1)));
        assert(spec_reconstruct(n, false) =~= s.subrange(i, next));
    }
}

proof fn lemma_closed_braces_suffix(s: Seq<char>, env: Seq<(Seq<char>, Seq<char>)>, i: int)
    requires
        0 <= i <= s.len(),
        forall|k: int|
            #![trigger s[k], s[k + 1]]
            0 <= k && k + 1 < s.len() && s[k] == '$' && s[k + 1] == '{' ==> exists|j: int|
                k + 1 < j < s.len() && s[j] == '}',
    ensures
        spec_substitute(s, i, Some(Set::<Seq<char>>::empty()), env) == s.subrange(
            i,
            s.len() as int,
        ),
    decreases s.len() - i,
{
    let ga = Some(Set::<Seq<char>>::empty());
    if i == s.len() {
        assert(s.subrange(i, s.len() as int) =~= Seq::<char>::empty());
    } else if s[i] == '$' {
        lemma_parse_progress(s, i + 1);
        match spec_parse_variable(s, i + 1) {
            Some(t) => {
                let next = t.2;
                assert(!allows(ga, t.0));
                lemma_closed_braces_suffix(s, env, next);
                if t.1 {
                    assert(s[i] == '$' && s[i + 1] == '{');
                    let jw = choose|jw: int| i + 1 < jw < s.len() && s[jw] == '}';
                    let j = delim_end(s, i + 2, '}');
                    lemma_delim_end_props(s, i + 2, '}');
                    assert(j <= jw) by {
                        if jw < j {
                            assert(s[jw] != '}');
                        }
                    }
                    lemma_filtered_reference_round_trip(s, i, t.0, t.1, next, ga, env);
                } else {
                    lemma_filtered_reference_round_trip(s, i, t.0, t.1, next, ga, env);
                }
                assert(s.subrange(i, next) + s.subrange(next, s.len() as int) =~= s.subrange(
                    i,
                    s.len() as int,
                ));
            },
            None => {
                lemma_closed_braces_suffix(s, env, i + 1);
                assert(seq!['$'] + s.subrange(i + 1, s.len() as int) =~= s.subrange(
                    i,
                    s.len() as int,
                ));
            },
        }
    } else {
        lemma_closed_braces_suffix(s, env, i + 1);
        assert(seq![s[i]] + s.subrange(i + 1, s.len() as int) =~= s.subrange(i, s.len() as int));
    }
}

/// With an empty allow-list nothing is substituted: every reference is
/// spelled back out, and a text whose braced references are all closed
/// round-trips unchanged. (A text with an unterminated `${NAME` is left out:
/// it is spelled back out with a closing brace added.)
pub proof fn lemma_empty_filter_identity(s: Seq<char>, env: Seq<(Seq<char>, Seq<char>)>)
    requires
        forall|k: int|
            #![trigger s[k], s[k + 1]]
            0 <= k && k + 1 < s.len() && s[k] == '$' && s[k + 1] == '{' ==> exists|j: int|
                k + 1 < j < s.len() && s[j] == '}',
    ensures
        spec_substitute(s, 0, Some(Set::<Seq<char>>::empty()), env) == s,
{
    lemma_closed_braces_suffix(s, env, 0);
    assert(s.subrange(0, s.len() as int) =~= s);
}

} // verus!
