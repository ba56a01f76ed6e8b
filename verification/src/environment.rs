//! The evaluation environment: a persistent finite mapping from variable
//! name to value. Extension produces a new environment; the original is
//! unchanged.

use vstd::prelude::*;

use crate::value::{binding_map, Val, Value};

verus! {

/// A persistent evaluation environment, modelled as a finite map from
/// variable name to value.
#[derive(Debug)]
pub struct Environment {
    pub variables: Vec<(String, Value)>,
}

impl View for Environment {
    type V = Map<Seq<char>, Val>;

    open spec fn view(&self) -> Map<Seq<char>, Val> {
        binding_map(self.variables@)
    }
}

impl Environment {
    /// Binds `variable` to `value`; the result maps `variable` to `value`
    /// and every other name to what `self` maps it to.
    pub fn bind(self, variable: String, value: Value) -> (r: Self)
        ensures
            r@ == self@.insert(variable@, value@),
    {
        let ghost old_vars = self.variables@;
        let mut variables = self.variables;
        variables.push((variable, value));
        proof {
            assert(variables@.drop_last() =~= old_vars);
        }
        Environment { variables }
    }

    /// Looks the name up: the bound value if the name is bound, nothing
    /// otherwise.
    pub fn get(&self, variable: &String) -> (r: Option<Value>)
        ensures
            match r {
                Some(v) => self@.contains_key(variable@) && v@ == self@[variable@],
                None => !self@.contains_key(variable@),
            },
    {
        proof {
            assert(self.variables@.subrange(0, self.variables@.len() as int)
                =~= self.variables@);
        }
        get_prefix(&self.variables, self.variables.len(), variable)
    }
}

/// Looks `key` up among the first `n` bindings of `v`, preferring the
/// latest.
fn get_prefix(v: &Vec<(String, Value)>, n: usize, key: &String) -> (r: Option<Value>)
    requires
        n <= v@.len(),
    ensures
        match r {
            Some(value) => binding_map(v@.subrange(0, n as int)).contains_key(key@) && value@
                == binding_map(v@.subrange(0, n as int))[key@],
            None => !binding_map(v@.subrange(0, n as int)).contains_key(key@),
        },
    decreases n,
{
    if n == 0 {
        proof {
            assert(v@.subrange(0, 0) =~= Seq::<(String, Value)>::empty());
        }
        None
    } else {
        proof {
            assert(v@.subrange(0, n as int).drop_last() =~= v@.subrange(0, n as int - 1));
            assert(v@.subrange(0, n as int).last() == v@[n as int - 1]);
        }
        if v[n - 1].0 == *key {
            Some(v[n - 1].1.clone())
        } else {
            get_prefix(v, n - 1, key)
        }
    }
}

impl Default for Environment {
    /// The empty environment.
    fn default() -> (r: Self)
        ensures
            r@ == Map::<Seq<char>, Val>::empty(),
    {
        Environment { variables: Vec::new() }
    }
}

impl Clone for Environment {
    /// A clone has the same model as the original.
    fn clone(&self) -> (r: Self)
        ensures
            r@ == self@,
    {
        proof {
            assert(self.variables@.subrange(0, self.variables@.len() as int)
                =~= self.variables@);
        }
        let variables = crate::value::clone_bindings(&self.variables, self.variables.len());
        proof {
            lemma_env_map_congruence(variables@, self.variables@);
        }
        Environment { variables }
    }
}

/// Association lists whose entries bind the same names to values with the
/// same models denote the same map.
pub proof fn lemma_env_map_congruence(s1: Seq<(String, Value)>, s2: Seq<(String, Value)>)
    requires
        s1.len() == s2.len(),
        forall|j: int| 0 <= j < s1.len() ==> s1[j].0@ == s2[j].0@ && s1[j].1@ == s2[j].1@,
    ensures
        binding_map(s1) == binding_map(s2),
    decreases s1,
{
    if s1.len() == 0 {
        assert(binding_map(s1) =~= binding_map(s2));
    } else {
        lemma_env_map_congruence(s1.drop_last(), s2.drop_last());
        assert(binding_map(s1) =~= binding_map(s2));
    }
}

} // verus!
