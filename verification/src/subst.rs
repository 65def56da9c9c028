//! The substitutor: rewrite a text, replacing each recognized and allowed
//! variable reference with its value from the environment, and reproducing
//! everything else verbatim.
use vstd::prelude::*;
use vstd::string::*;

use crate::env::spec_env_lookup;
use crate::env::Environment;
use crate::extract::extract_variables;
use crate::extract::names_of;
use crate::extract::spec_vars;
use crate::scan::lemma_parse_progress;
use crate::scan::parse_variable;
use crate::scan::spec_parse_variable;

verus! {

/// Whether the filter allows `name`: an absent filter allows every name, a
/// present one only its members.
pub open spec fn allows(allow: Option<Set<Seq<char>>>, name: Seq<char>) -> bool {
    match allow {
        None => true,
        Some(a) => a.contains(name),
    }
}

/// The set of names an optional allow-list vector stands for.
pub open spec fn allow_view(allowed_vars: Option<&Vec<String>>) -> Option<Set<Seq<char>>> {
    match allowed_vars {
        None => None,
        Some(v) => Some(names_of(v.deep_view())),
    }
}

/// The original spelling of a reference: `${name}` when braced, `$name` when
/// bare.
pub open spec fn spec_reconstruct(name: Seq<char>, braced: bool) -> Seq<char> {
    if braced {
        seq!['$', '{'] + name + seq!['}']
    } else {
        seq!['$'] + name
    }
}

/// The substituted form of the text from position `i` on. Literal characters
/// are kept; at each `$` the scanner runs: a recognized reference whose name
/// the filter allows becomes its looked-up value, one whose name it does not
/// allow is spelled back out, and a `$` that starts no reference stays a
/// literal `$`.
pub open spec fn spec_substitute(
    s: Seq<char>,
    i: int,
    allow: Option<Set<Seq<char>>>,
    env: Seq<(Seq<char>, Seq<char>)>,
) -> Seq<char>
    decreases s.len() - i,
    via spec_substitute_decreases
{
    if i < 0 || i >= s.len() {
        Seq::empty()
    } else if s[i] == '$' {
        match spec_parse_variable(s, i + 1) {
            Some(t) => (if allows(allow, t.0) {
                spec_env_lookup(env, t.0)
            } else {
                spec_reconstruct(t.0, t.1)
            }) + spec_substitute(s, t.2, allow, env),
            None => seq!['$'] + spec_substitute(s, i + 1, allow, env),
        }
    } else {
        seq![s[i]] + spec_substitute(s, i + 1, allow, env)
    }
}

#[via_fn]
proof fn spec_substitute_decreases(
    s: Seq<char>,
    i: int,
    allow: Option<Set<Seq<char>>>,
    env: Seq<(Seq<char>, Seq<char>)>,
) {
    if 0 <= i && i < s.len() {
        lemma_parse_progress(s, i + 1);
    }
}

/// Check if a variable should be substituted: always when no allow-list was
/// given, else only when the list holds its name.
pub fn should_substitute(var_name: &String, allowed_vars: Option<&Vec<String>>) -> (r: bool)
    ensures
        r == allows(allow_view(allowed_vars), var_name@),
{
    match allowed_vars {
        Some(list) => {
            let n = list.len();
            let mut k: usize = 0;
            while k < n
                invariant
                    k <= n,
                    n == list.len(),
                    allow_view(allowed_vars) == Some(names_of(list.deep_view())),
                    forall|m: int| 0 <= m < k ==> list.deep_view()[m] != var_name@,
                decreases n - k,
            {
                if list[k] == *var_name {
                    assert(list.deep_view()[k as int] == var_name@);
                    assert(list.deep_view().contains(var_name@));
                    return true;
                }
                assert(list.deep_view()[k as int] == list@[k as int]@);
                k = k + 1;
            }
            assert(!list.deep_view().contains(var_name@));
            false
        },
        None => true,
    }
}

/// The value to substitute for `var_name`: `Some` of the environment's value
/// (empty when unbound) when the filter allows the name, `None` when it does
/// not and the original spelling must be kept.
pub fn get_substitution_value(
    var_name: &String,
    allowed_vars: Option<&Vec<String>>,
    env: &Environment,
) -> (r: Option<String>)
    ensures
        match r {
            Some(v) => allows(allow_view(allowed_vars), var_name@) && v@ == spec_env_lookup(
                env@,
                var_name@,
            ),
            None => !allows(allow_view(allowed_vars), var_name@),
        },
{
    if should_substitute(var_name, allowed_vars) {
        Some(env.get(var_name))
    } else {
        None
    }
}

/// Reconstruct the original spelling of a reference.
pub fn reconstruct_variable(var_name: &str, is_braced: bool) -> (r: String)
    ensures
        r@ == spec_reconstruct(var_name@, is_braced),
{
    let mut r = String::new();
    if is_braced {
        r.append("${");
        r.append(var_name);
        r.append("}");
        proof {
            reveal_strlit("${");
            reveal_strlit("}");
            assert(r@ =~= spec_reconstruct(var_name@, true));
        }
    } else {
        r.append("$");
        r.append(var_name);
        proof {
            reveal_strlit("$");
            assert(r@ =~= spec_reconstruct(var_name@, false));
        }
    }
    r
}

/// Substitute the variable references of `input` from `env`, restricted to
/// the names of `allowed_vars` when such a list is given.
pub fn substitute_variables(
    input: &str,
    allowed_vars: Option<&Vec<String>>,
    env: &Environment,
) -> (r: String)
    ensures
        r@ == spec_substitute(input@, 0, allow_view(allowed_vars), env@),
{
    let ghost ga = allow_view(allowed_vars);
    let mut result = String::new();
    let n = input.unicode_len();
    let mut i: usize = 0;
    while i < n
        invariant
            i <= n,
            n == input@.len(),
            ga == allow_view(allowed_vars),
            result@ + spec_substitute(input@, i as int, ga, env@) == spec_substitute(
                input@,
                0,
                ga,
                env@,
            ),
        decreases n - i,
    {
        let ghost pre = result@;
        let ghost tail0 = spec_substitute(input@, i as int, ga, env@);
        let ch = input.get_char(i);
        if ch == '$' {
            match parse_variable(input, i + 1) {
                Some((var_name, is_braced, next)) => {
                    let ghost gn = var_name@;
                    let ghost chunk = if allows(ga, gn) {
                        spec_env_lookup(env@, gn)
                    } else {
                        spec_reconstruct(gn, is_braced)
                    };
                    let ghost tail = spec_substitute(input@, next as int, ga, env@);
                    match get_substitution_value(&var_name, allowed_vars, env) {
                        Some(value) => {
                            result.append(value.as_str());
                        },
                        None => {
                            let rec = reconstruct_variable(var_name.as_str(), is_braced);
                            result.append(rec.as_str());
                        },
                    }
                    proof {
                        assert(tail0 == chunk + tail);
                        assert((pre + chunk) + tail =~= pre + (chunk + tail));
                    }
                    i = next;
                },
                None => {
                    result.append("$");
                    proof {
                        reveal_strlit("$");
                        let tail = spec_substitute(input@, i as int + 1, ga, env@);
                        assert(("$")@ =~= seq!['$']);
                        assert(tail0 == seq!['$'] + tail);
                        assert((pre + seq!['$']) + tail =~= pre + (seq!['$'] + tail));
                    }
                    i = i + 1;
                },
            }
        } else {
            let one = input.substring_char(i, i + 1);
            result.append(one);
            proof {
                let tail = spec_substitute(input@, i as int + 1, ga, env@);
                assert(one@ =~= seq![input@[i as int]]);
                assert(tail0 == seq![input@[i as int]] + tail);
                assert((pre + one@) + tail =~= pre + (one@ + tail));
            }
            i = i + 1;
        }
    }
    proof {
        assert(spec_substitute(input@, n as int, ga, env@) =~= Seq::<char>::empty());
        assert(result@ + Seq::<char>::empty() =~= result@);
    }
    result
}

/// Substitute the references of `input` from `env`. With no format string
/// every recognized reference is substituted; with one, the names referenced
/// by the format become the allow-list, and only they are substituted.
pub fn substitute(input: &str, format: Option<&str>, env: &Environment) -> (r: String)
    ensures
        r@ == match format {
            None => spec_substitute(input@, 0, None, env@),
            Some(f) => spec_substitute(input@, 0, Some(spec_vars(f@, 0)), env@),
        },
{
    match format {
        None => substitute_variables(input, None, env),
        Some(f) => {
            let allowed = extract_variables(f);
            substitute_variables(input, Some(&allowed), env)
        },
    }
}

} // verus!
