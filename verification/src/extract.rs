//! The extractor: collect the distinct variable names referenced in a text,
//! sorted by codepoint order.
use vstd::prelude::*;
use vstd::string::*;

use crate::order::lemma_lex_transitive;
use crate::order::lemma_lex_trichotomy;
use crate::order::lex_lt;
use crate::order::str_lt;
use crate::order::strictly_sorted;
use crate::scan::lemma_parse_progress;
use crate::scan::parse_variable;
use crate::scan::spec_parse_variable;

verus! {

/// The set of names a sequence of names holds.
pub open spec fn names_of(v: Seq<Seq<char>>) -> Set<Seq<char>> {
    Set::new(|x: Seq<char>| v.contains(x))
}

/// The distinct non-empty variable names referenced at or after position
/// `i`: each `$` is examined, a recognized reference contributes its name
/// unless the name is empty (the `${}` case), and scanning resumes after the
/// reference.
pub open spec fn spec_vars(s: Seq<char>, i: int) -> Set<Seq<char>>
    decreases s.len() - i,
    via spec_vars_decreases
{
    if i < 0 || i >= s.len() {
        Set::empty()
    } else if s[i] == '$' {
        match spec_parse_variable(s, i + 1) {
            Some(t) => if t.0.len() > 0 {
                spec_vars(s, t.2).insert(t.0)
            } else {
                spec_vars(s, t.2)
            },
            None => spec_vars(s, i + 1),
        }
    } else {
        spec_vars(s, i + 1)
    }
}

#[via_fn]
proof fn spec_vars_decreases(s: Seq<char>, i: int) {
    if 0 <= i && i < s.len() {
        lemma_parse_progress(s, i + 1);
    }
}

/// Insert `name` into a strictly sorted vector of names, keeping it sorted;
/// a name already present is not inserted again.
fn insert_sorted(vars: &mut Vec<String>, name: String)
    requires
        strictly_sorted(old(vars).deep_view()),
    ensures
        strictly_sorted(final(vars).deep_view()),
        names_of(final(vars).deep_view()) == names_of(old(vars).deep_view()).insert(name@),
{
    let ghost gname = name@;
    let ghost dvo = old(vars).deep_view();
    let n = vars.len();
    let mut j: usize = 0;
    while j < n && str_lt(vars[j].as_str(), name.as_str())
        invariant
            j <= n,
            n == vars.len(),
            *vars == *old(vars),
            vars.deep_view() == dvo,
            dvo.len() == n as nat,
            name@ == gname,
            forall|m: int| 0 <= m < j ==> lex_lt(dvo[m], gname),
        decreases n - j,
    {
        assert(dvo[j as int] == vars@[j as int]@);
        j = j + 1;
    }
    let mut present = false;
    if j < n {
        assert(vars.deep_view()[j as int] == vars@[j as int]@);
        if !str_lt(name.as_str(), vars[j].as_str()) {
            present = true;
            proof {
                lemma_lex_trichotomy(gname, dvo[j as int]);
            }
        }
    }
    if present {
        proof {
            assert(dvo.contains(gname)) by {
                assert(dvo[j as int] == gname);
            }
            assert(names_of(dvo).insert(gname) =~= names_of(dvo));
        }
    } else {
        vars.insert(j, name);
        proof {
            let dvn = vars.deep_view();
            assert forall|k: int| 0 <= k < dvn.len() implies dvn[k] == dvo.insert(
                j as int,
                gname,
            )[k] by {
                assert(dvn[k] == vars@[k]@);
            }
            assert(dvn =~= dvo.insert(j as int, gname));
            assert forall|p: int, q: int| 0 <= p < q < dvn.len() implies lex_lt(
                dvn[p],
                dvn[q],
            ) by {
                if q < j {
                    assert(lex_lt(dvo[p], dvo[q]));
                } else if p < j && q == j {
                    assert(lex_lt(dvo[p], gname));
                } else if p == j && q > j {
                    assert(lex_lt(gname, dvo[j as int]));
                    if q > j + 1 {
                        assert(lex_lt(dvo[j as int], dvo[q - 1]));
                        lemma_lex_transitive(gname, dvo[j as int], dvo[q - 1]);
                    }
                } else if p < j && q > j {
                    assert(lex_lt(dvo[p], dvo[q - 1]));
                } else {
                    assert(lex_lt(dvo[p - 1], dvo[q - 1]));
                }
            }
            assert forall|x: Seq<char>| names_of(dvn).contains(x) implies names_of(dvo).insert(
                gname,
            ).contains(x) by {
                let idx = choose|idx: int| 0 <= idx < dvn.len() && dvn[idx] == x;
                if idx < j {
                    assert(dvo[idx] == x);
                } else if idx > j {
                    assert(dvo[idx - 1] == x);
                }
            }
            assert forall|x: Seq<char>| names_of(dvo).insert(gname).contains(x) implies names_of(
                dvn,
            ).contains(x) by {
                if x == gname {
                    assert(dvn[j as int] == x);
                } else {
                    let idx = choose|idx: int| 0 <= idx < dvo.len() && dvo[idx] == x;
                    if idx < j {
                        assert(dvn[idx] == x);
                    } else {
                        assert(dvn[idx + 1] == x);
                    }
                }
            }
            assert(names_of(dvn) =~= names_of(dvo).insert(gname));
        }
    }
}

/// Extract the distinct variable names referenced in the input, sorted
/// ascending by codepoint value and free of duplicates.
pub fn extract_variables(input: &str) -> (r: Vec<String>)
    ensures
        strictly_sorted(r.deep_view()),
        names_of(r.deep_view()) == spec_vars(input@, 0),
{
    let mut vars: Vec<String> = Vec::new();
    let n = input.unicode_len();
    let mut i: usize = 0;
    proof {
        assert(vars.deep_view() =~= Seq::<Seq<char>>::empty());
        assert(names_of(vars.deep_view()).union(spec_vars(input@, 0)) =~= spec_vars(input@, 0));
    }
    while i < n
        invariant
            i <= n,
            n == input@.len(),
            strictly_sorted(vars.deep_view()),
            spec_vars(input@, 0) == names_of(vars.deep_view()).union(spec_vars(input@, i as int)),
        decreases n - i,
    {
        let ghost pre = names_of(vars.deep_view());
        let ch = input.get_char(i);
        if ch == '$' {
            match parse_variable(input, i + 1) {
                Some((var_name, _braced, next)) => {
                    let ghost gn = var_name@;
                    if !var_name.as_str().is_empty() {
                        insert_sorted(&mut vars, var_name);
                        proof {
                            assert(spec_vars(input@, i as int) == spec_vars(
                                input@,
                                next as int,
                            ).insert(gn));
                            assert(pre.insert(gn).union(spec_vars(input@, next as int))
                                =~= pre.union(spec_vars(input@, i as int)));
                        }
                    } else {
                        proof {
                            assert(spec_vars(input@, i as int) == spec_vars(input@, next as int));
                        }
                    }
                    i = next;
                }
                None => {
                    proof {
                        assert(spec_vars(input@, i as int) == spec_vars(input@, i as int + 1));
                    }
                    i = i + 1;
                }
            }
        } else {
            proof {
                assert(spec_vars(input@, i as int) == spec_vars(input@, i as int + 1));
            }
            i = i + 1;
        }
    }
    proof {
        assert(spec_vars(input@, n as int) =~= Set::<Seq<char>>::empty());
        assert(names_of(vars.deep_view()).union(spec_vars(input@, n as int)) =~= names_of(
            vars.deep_view(),
        ));
    }
    vars
}

} // verus!
