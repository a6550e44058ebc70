//! The environment: which value each name stands for.

use std::rc::Rc;
use vstd::prelude::*;
use crate::int_bool::IntBool;

verus! {

/// An environment: empty, or one binding in front of an older environment,
/// which it shares and never changes.
#[derive(Debug)]
pub enum LetLangEnv {
    EmptyEnv,
    ExtendEnv(String, IntBool, Rc<LetLangEnv>),
}

/// The bindings of an environment, the most recent first.
pub type Bindings = Seq<(Seq<char>, IntBool)>;

/// The bindings `env` with one more in front.
pub open spec fn extend(env: Bindings, name: Seq<char>, value: IntBool) -> Bindings {
    seq![(name, value)] + env
}

/// The value of the most recent binding of `name`, if there is one.
pub open spec fn lookup(env: Bindings, name: Seq<char>) -> Option<IntBool>
    decreases env.len(),
{
    if env.len() == 0 {
        None
    } else if env[0].0 == name {
        Some(env[0].1)
    } else {
        lookup(env.drop_first(), name)
    }
}

/// The bindings written out: `[]` for none, else the first binding and
/// then the rest inside one pair of brackets.
pub open spec fn bindings_text(env: Bindings) -> Seq<char>
    decreases env.len(),
{
    if env.len() == 0 {
        "[]"@
    } else {
        "["@ + env[0].0 + ", "@ + env[0].1.text() + " "@ + bindings_text(env.drop_first()) + "]"@
    }
}

/// A new binding hides the older ones of its name and no others.
pub proof fn lemma_lookup_extend(env: Bindings, name: Seq<char>, value: IntBool, other: Seq<char>)
    ensures
        lookup(extend(env, name, value), other) == if other == name {
            Some(value)
        } else {
            lookup(env, other)
        },
        extend(env, name, value).len() == env.len() + 1,
        extend(env, name, value)[0] == (name, value),
        extend(env, name, value).drop_first() == env,
{
    assert(extend(env, name, value).drop_first() =~= env);
}

/// Whether the binding at position `k` is the first one of `name`.
pub open spec fn first_binding(env: Bindings, name: Seq<char>, k: int) -> bool {
    &&& 0 <= k < env.len()
    &&& env[k].0 == name
    &&& forall|j: int| 0 <= j < k ==> (#[trigger] env[j]).0 != name
}

/// A lookup gives the value of the first binding of the name, and nothing
/// where no binding has the name.
pub proof fn lemma_lookup_first(env: Bindings, name: Seq<char>)
    ensures
        match lookup(env, name) {
            Some(v) => exists|k: int| first_binding(env, name, k) && env[k].1 == v,
            None => forall|j: int| 0 <= j < env.len() ==> (#[trigger] env[j]).0 != name,
        },
    decreases env.len(),
{
    if env.len() > 0 {
        if env[0].0 == name {
            assert(first_binding(env, name, 0));
        } else {
            let rest = env.drop_first();
            lemma_lookup_first(rest, name);
            match lookup(rest, name) {
                Some(v) => {
                    let k = choose|k: int| first_binding(rest, name, k) && rest[k].1 == v;
                    assert forall|j: int| 0 <= j < k + 1 implies (#[trigger] env[j]).0 != name by {
                        if j > 0 {
                            assert(env[j] == rest[j - 1]);
                        }
                    }
                    assert(first_binding(env, name, k + 1));
                },
                None => {
                    assert forall|j: int| 0 <= j < env.len() implies (#[trigger] env[j]).0
                        != name by {
                        if j > 0 {
                            assert(env[j] == rest[j - 1]);
                        }
                    }
                },
            }
        }
    }
}

impl LetLangEnv {
    pub open spec fn view(&self) -> Bindings
        decreases self,
    {
        match self {
            LetLangEnv::EmptyEnv => Seq::empty(),
            LetLangEnv::ExtendEnv(name, value, rest) => extend((**rest).view(), name@, *value),
        }
    }

    pub fn new_env() -> (r: Self)
        ensures
            r@ == Seq::<(Seq<char>, IntBool)>::empty(),
    {
        LetLangEnv::EmptyEnv
    }

    /// An environment with one more binding, in front of those of `self`.
    pub fn extend_env(&self, s: &String, val: IntBool) -> (r: Self)
        ensures
            r@ == extend(self@, s@, val),
    {
        LetLangEnv::ExtendEnv(s.clone(), val, Rc::new(self.clone()))
    }

    /// The value that `s` stands for: that of its most recent binding.
    pub fn apply_env(&self, s: &String) -> (r: Option<IntBool>)
        ensures
            r == lookup(self@, s@),
        decreases self,
    {
        match self {
            LetLangEnv::ExtendEnv(var, val, env) => {
                proof {
                    lemma_lookup_extend((**env)@, var@, *val, s@);
                }
                if *s == *var {
                    Some(*val)
                } else {
                    env.apply_env(s)
                }
            },
            LetLangEnv::EmptyEnv => None,
        }
    }

    pub fn is_null_env(&self) -> (r: bool)
        ensures
            r == (self@.len() == 0),
    {
        match self {
            LetLangEnv::EmptyEnv => true,
            _ => false,
        }
    }

    /// Appends the text of the environment to `out`.
    fn write_to(&self, out: &mut String)
        ensures
            final(out)@ == old(out)@ + bindings_text(self@),
        decreases self,
    {
        let ghost start = out@;
        match self {
            LetLangEnv::EmptyEnv => {
                out.append("[]");
            },
            LetLangEnv::ExtendEnv(var, val, env) => {
                proof {
                    lemma_lookup_extend((**env)@, var@, *val, var@);
                }
                out.append("[");
                out.append(var.as_str());
                out.append(", ");
                let v = val.to_string();
                out.append(v.as_str());
                out.append(" ");
                env.write_to(out);
                out.append("]");
                assert(out@ =~= start + bindings_text(self@));
            },
        }
    }

    /// The environment written out, the most recent binding first.
    pub fn to_string(&self) -> (r: String)
        ensures
            r@ == bindings_text(self@),
    {
        let mut r = String::new();
        self.write_to(&mut r);
        assert(r@ =~= bindings_text(self@));
        r
    }
}

impl Clone for LetLangEnv {
    /// A copy, which shares the older bindings with the environment it is
    /// made from.
    fn clone(&self) -> (r: LetLangEnv)
        ensures
            r@ == self@,
    {
        match self {
            LetLangEnv::EmptyEnv => LetLangEnv::EmptyEnv,
            LetLangEnv::ExtendEnv(name, value, rest) => LetLangEnv::ExtendEnv(
                name.clone(),
                *value,
                rest.clone(),
            ),
        }
    }
}

} // verus!
