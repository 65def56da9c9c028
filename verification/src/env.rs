//! A name-to-value table standing in for the process environment. The
//! caller fills it once; substitution only reads it. Looking up a name that
//! is not bound yields the empty string: an unset variable is
//! indistinguishable from one bound to the empty value.
use vstd::prelude::*;
use vstd::string::*;

verus! {

/// What looking `name` up in `env` yields: the value of the latest entry
/// bound to `name`, or the empty sequence when no entry is.
pub open spec fn spec_env_lookup(env: Seq<(Seq<char>, Seq<char>)>, name: Seq<char>) -> Seq<char>
    decreases env.len(),
{
    if env.len() == 0 {
        Seq::empty()
    } else if env.last().0 == name {
        env.last().1
    } else {
        spec_env_lookup(env.drop_last(), name)
    }
}

/// An ordered list of name/value bindings; a later binding of a name
/// shadows an earlier one.
pub struct Environment {
    entries: Vec<(String, String)>,
}

impl View for Environment {
    type V = Seq<(Seq<char>, Seq<char>)>;

    closed spec fn view(&self) -> Seq<(Seq<char>, Seq<char>)> {
        Seq::new(self.entries@.len(), |i: int| (self.entries@[i].0@, self.entries@[i].1@))
    }
}

impl Environment {
    /// An environment with no bindings: every lookup yields the empty string.
    pub fn new() -> (e: Environment)
        ensures
            e@ == Seq::<(Seq<char>, Seq<char>)>::empty(),
    {
        let e = Environment { entries: Vec::new() };
        proof {
            assert(e@ =~= Seq::<(Seq<char>, Seq<char>)>::empty());
        }
        e
    }

    /// Bind `name` to `value`, shadowing any earlier binding of `name`.
    pub fn set(&mut self, name: String, value: String)
        ensures
            final(self)@ == old(self)@.push((name@, value@)),
    {
        let ghost n = name@;
        let ghost v = value@;
        self.entries.push((name, value));
        proof {
            assert(self@ =~= old(self)@.push((n, v)));
        }
    }

    /// Look `name` up: the value of its latest binding, or the empty string
    /// when it is unbound.
    pub fn get(&self, name: &String) -> (r: String)
        ensures
            r@ == spec_env_lookup(self@, name@),
    {
        let n = self.entries.len();
        let mut k: usize = n;
        proof {
            assert(self@.take(n as int) =~= self@);
        }
        while k > 0
            invariant
                k <= n,
                n == self.entries.len(),
                spec_env_lookup(self@, name@) == spec_env_lookup(self@.take(k as int), name@),
            decreases k,
        {
            if self.entries[k - 1].0 == *name {
                proof {
                    assert(self@.take(k as int).last() == self@[k as int - 1]);
                }
                return self.entries[k - 1].1.clone();
            }
            proof {
                assert(self@.take(k as int).last() == self@[k as int - 1]);
                assert(self@.take(k as int).drop_last() =~= self@.take(k as int - 1));
            }
            k = k - 1;
        }
        proof {
            assert(self@.take(0) =~= Seq::<(Seq<char>, Seq<char>)>::empty());
        }
        String::new()
    }
}

} // verus!
