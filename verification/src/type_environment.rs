//! The type environment: a persistent mapping from object-language names
//! to type schemes, together with the equation store collected so far.

use vstd::prelude::*;

use crate::errors::TypeError;
use crate::symbol::{advance, SymbolGenerator};
use crate::type_scheme::{instantiate_from, Scheme, TypeScheme};
use crate::types::{names_view, ty_vars, type_eq, Ty, Type};
use crate::unification::{
    add_eq_spec, add_equation, get_eq_spec, get_equation, names_set, occurs_check, unify,
    unify_spec, Equations,
};

verus! {

/// Mathematical model of a type environment.
pub ghost struct TyEnv {
    pub bindings: Map<Seq<char>, Scheme>,
    pub equations: Seq<(Ty, Ty)>,
}

/// The map denoted by an association list of schemes, later entries
/// shadowing earlier ones.
pub open spec fn scheme_map(s: Seq<(String, TypeScheme)>) -> Map<Seq<char>, Scheme>
    decreases s.len(),
{
    if s.len() == 0 {
        Map::empty()
    } else {
        scheme_map(s.drop_last()).insert(s.last().0@, s.last().1@)
    }
}

/// The models of a sequence of types.
pub open spec fn tys_view(s: Seq<Type>) -> Seq<Ty> {
    s.map_values(|x: Type| x@)
}

/// A persistent type environment: name-to-scheme bindings plus an
/// equation store.
#[derive(Debug)]
pub struct TypeEnvironment {
    pub variable_types: Vec<(String, TypeScheme)>,
    pub equations: Equations,
}

impl View for TypeEnvironment {
    type V = TyEnv;

    open spec fn view(&self) -> TyEnv {
        TyEnv { bindings: scheme_map(self.variable_types@), equations: self.equations@ }
    }
}

impl Default for TypeEnvironment {
    /// An environment with no bindings and no equations.
    fn default() -> (r: Self)
        ensures
            r@.bindings == Map::<Seq<char>, Scheme>::empty(),
            r@.equations == Seq::<(Ty, Ty)>::empty(),
    {
        TypeEnvironment { variable_types: Vec::new(), equations: Equations::new() }
    }
}

impl Clone for TypeEnvironment {
    /// A clone has the same model as the original.
    fn clone(&self) -> (r: Self)
        ensures
            r@ == self@,
    {
        let mut variable_types: Vec<(String, TypeScheme)> = Vec::new();
        let n = self.variable_types.len();
        let mut i: usize = 0;
        while i < n
            invariant
                n == self.variable_types@.len(),
                i <= n,
                variable_types@.len() == i,
                forall|j: int| 0 <= j < i ==> variable_types@[j].0@ == self.variable_types@[j].0@
                    && variable_types@[j].1@ == self.variable_types@[j].1@,
            decreases n - i,
        {
            let name = self.variable_types[i].0.clone();
            let scheme = self.variable_types[i].1.clone();
            variable_types.push((name, scheme));
            i += 1;
        }
        let r = TypeEnvironment { variable_types, equations: self.equations.clone() };
        proof {
            lemma_scheme_map_congruence(r.variable_types@, self.variable_types@);
        }
        r
    }
}

/// Scheme lists whose entries bind the same names to schemes with the same
/// models denote the same map.
proof fn lemma_scheme_map_congruence(s1: Seq<(String, TypeScheme)>, s2: Seq<(String, TypeScheme)>)
    requires
        s1.len() == s2.len(),
        forall|j: int| 0 <= j < s1.len() ==> s1[j].0@ == s2[j].0@ && s1[j].1@ == s2[j].1@,
    ensures
        scheme_map(s1) == scheme_map(s2),
    decreases s1.len(),
{
    if s1.len() == 0 {
        assert(scheme_map(s1) =~= scheme_map(s2));
    } else {
        lemma_scheme_map_congruence(s1.drop_last(), s2.drop_last());
        assert(scheme_map(s1) =~= scheme_map(s2));
    }
}

/// Looks `key` up among the first `n` bindings of `v`, preferring the
/// latest.
fn get_scheme_prefix(v: &Vec<(String, TypeScheme)>, n: usize, key: &String) -> (r: Option<
    TypeScheme,
>)
    requires
        n <= v@.len(),
    ensures
        match r {
            Some(scheme) => scheme_map(v@.subrange(0, n as int)).contains_key(key@) && scheme@
                == scheme_map(v@.subrange(0, n as int))[key@],
            None => !scheme_map(v@.subrange(0, n as int)).contains_key(key@),
        },
    decreases n,
{
    if n == 0 {
        proof {
            assert(v@.subrange(0, 0) =~= Seq::<(String, TypeScheme)>::empty());
        }
        None
    } else {
        proof {
            assert(v@.subrange(0, n as int).drop_last() =~= v@.subrange(0, n as int - 1));
            assert(v@.subrange(0, n as int).last() == v@[n as int - 1]);
        }
        if v[n - 1].0 == *key {
            Some(v[n - 1].1.clone())
        } else {
            get_scheme_prefix(v, n - 1, key)
        }
    }
}

/// Whether the type variable `v` occurs free in the scheme: in its inner
/// type but not among its quantifiers.
pub open spec fn scheme_uses(sch: Scheme, v: Seq<char>) -> bool {
    ty_vars(sch.base_type).contains(v) && !sch.variables.contains(v)
}

/// Whether some binding of the map uses `v` free.
pub open spec fn map_uses(m: Map<Seq<char>, Scheme>, v: Seq<char>) -> bool {
    exists|k: Seq<char>| #[trigger] m.dom().contains(k) && scheme_uses(m[k], v)
}

/// The variable names used free by some binding of the map.
pub open spec fn map_free_set(m: Map<Seq<char>, Scheme>) -> Set<Seq<char>> {
    Set::new(|v: Seq<char>| map_uses(m, v))
}

/// Whether some binding of the map, other than those named in `skip`,
/// uses `v` free.
pub open spec fn map_uses_except(
    m: Map<Seq<char>, Scheme>,
    skip: Set<Seq<char>>,
    v: Seq<char>,
) -> bool {
    exists|k: Seq<char>|
        #[trigger] m.dom().contains(k) && !skip.contains(k) && scheme_uses(m[k], v)
}

/// The candidates among `vars`, in order, that are not in `bound`.
pub open spec fn unbound_spec(vars: Seq<Seq<char>>, bound: Set<Seq<char>>) -> Seq<Seq<char>>
    decreases vars.len(),
{
    if vars.len() == 0 {
        vars
    } else {
        let rest = unbound_spec(vars.drop_last(), bound);
        if bound.contains(vars.last()) {
            rest
        } else {
            rest.push(vars.last())
        }
    }
}

impl TypeEnvironment {
    /// Looks the name up and instantiates its scheme with fresh type
    /// variables; *undefined variable* if the name is unbound.
    pub fn get_variable_type(&self, generator: &mut SymbolGenerator, variable_name: &String)
        -> (r: Result<Type, TypeError>)
        ensures
            match r {
                Ok(t) => self@.bindings.contains_key(variable_name@) && t@ == instantiate_from(
                    self@.bindings[variable_name@].variables,
                    self@.bindings[variable_name@].base_type,
                    old(generator).next as nat,
                ) && final(generator).next as nat == advance(
                    old(generator).next as nat,
                    self@.bindings[variable_name@].variables.len(),
                ),
                Err(e) => !self@.bindings.contains_key(variable_name@) && e
                    == TypeError::UndefinedVariable && *final(generator) == *old(generator),
            },
    {
        proof {
            assert(self.variable_types@.subrange(0, self.variable_types@.len() as int)
                =~= self.variable_types@);
        }
        match get_scheme_prefix(&self.variable_types, self.variable_types.len(), variable_name) {
            Some(scheme) => Ok(scheme.instantiate(generator)),
            None => Err(TypeError::UndefinedVariable),
        }
    }

    /// The subset of the candidate type-variable names that no scheme of
    /// the environment uses free, in the candidates' order: the variables
    /// that may be generalized.
    pub fn get_unbound_variables(&self, variables: Vec<String>) -> (r: Vec<String>)
        ensures
            names_view(r@) == unbound_spec(names_view(variables@), map_free_set(self@.bindings)),
    {
        let mut out: Vec<String> = Vec::new();
        let n = variables.len();
        proof {
            assert(names_view(variables@.subrange(0, 0)) =~= Seq::<Seq<char>>::empty());
            assert(names_view(out@) =~= Seq::<Seq<char>>::empty());
        }
        let mut i: usize = 0;
        while i < n
            invariant
                n == variables@.len(),
                i <= n,
                names_view(out@) == unbound_spec(
                    names_view(variables@.subrange(0, i as int)),
                    map_free_set(self@.bindings),
                ),
            decreases n - i,
        {
            let ghost prefix = names_view(variables@.subrange(0, i as int));
            let ghost whole = names_view(variables@.subrange(0, i as int + 1));
            proof {
                assert(variables@.subrange(0, i as int + 1).drop_last() =~= variables@.subrange(
                    0,
                    i as int,
                ));
                assert(whole.drop_last() =~= prefix);
                assert(whole.last() == variables@[i as int]@);
            }
            let bound = self.binding_uses(&variables[i]);
            proof {
                assert(map_free_set(self@.bindings).contains(variables@[i as int]@) == map_uses(
                    self@.bindings,
                    variables@[i as int]@,
                ));
            }
            if !bound {
                let ghost out_prev = out@;
                out.push(variables[i].clone());
                proof {
                    assert(names_view(out@) =~= names_view(out_prev).push(variables@[i as int]@));
                }
            }
            i += 1;
        }
        proof {
            assert(variables@.subrange(0, n as int) =~= variables@);
        }
        out
    }

    /// Whether some scheme of the environment uses the name free.
    fn binding_uses(&self, name: &String) -> (r: bool)
        ensures
            r == map_uses(self@.bindings, name@),
    {
        proof {
            assert(self.variable_types@.subrange(0, self.variable_types@.len() as int)
                =~= self.variable_types@);
            assert(names_set(Seq::<String>::empty()) == Set::<Seq<char>>::empty());
        }
        let r = uses_prefix(&self.variable_types, self.variable_types.len(), name, Vec::new());
        proof {
            assert forall|k: Seq<char>|
                self@.bindings.dom().contains(k) && !Set::<Seq<char>>::empty().contains(k)
                    && scheme_uses(self@.bindings[k], name@) implies self@.bindings.dom().contains(
                k,
            ) && scheme_uses(self@.bindings[k], name@) by {}
        }
        r
    }

    /// Binds `variable_name` to `type_scheme`; shadowing is permitted.
    pub fn substitute_variable(self, variable_name: String, type_scheme: TypeScheme) -> (r: Self)
        ensures
            r@.bindings == self@.bindings.insert(variable_name@, type_scheme@),
            r@.equations == self@.equations,
    {
        let ghost old_types = self.variable_types@;
        let mut variable_types = self.variable_types;
        variable_types.push((variable_name, type_scheme));
        proof {
            assert(variable_types@.drop_last() =~= old_types);
        }
        TypeEnvironment { variable_types, equations: self.equations }
    }

    /// Records one more required equality between two types.
    pub fn add_equation(self, type1: Type, type2: Type) -> (r: Self)
        ensures
            r@.equations == add_eq_spec(self@.equations, (type1@, type2@)),
            r@.bindings == self@.bindings,
    {
        let equations = add_equation(self.equations, type1, type2);
        TypeEnvironment { variable_types: self.variable_types, equations }
    }

    /// Solves the collected equations; the environment's store is replaced
    /// by the resulting substitution.
    pub fn unify_equations(self) -> (r: Result<Self, TypeError>)
        ensures
            match r {
                Ok(env) => unify_spec(self@.equations, Seq::empty()) == Ok::<
                    Seq<(Ty, Ty)>,
                    TypeError,
                >(env@.equations) && env@.bindings == self@.bindings,
                Err(e) => unify_spec(self@.equations, Seq::empty()) == Err::<
                    Seq<(Ty, Ty)>,
                    TypeError,
                >(e),
            },
    {
        match unify(self.equations, Equations::new()) {
            Ok(equations) => Ok(
                TypeEnvironment { variable_types: self.variable_types, equations },
            ),
            Err(e) => Err(e),
        }
    }

    /// Applies the store to `t`: recurses through lists and functions and
    /// resolves each type variable to its representative. A variable
    /// already on `visited` is a *cyclic type reference*.
    pub fn normalize_type(&self, visited: Vec<Type>, t: Type) -> (r: Result<Type, TypeError>)
        ensures
            match r {
                Ok(x) => normalize_spec(self@.equations, tys_view(visited@), t@) == Ok::<
                    Ty,
                    TypeError,
                >(x@),
                Err(e) => normalize_spec(self@.equations, tys_view(visited@), t@) == Err::<
                    Ty,
                    TypeError,
                >(e),
            },
        decreases t,
    {
        match t {
            Type::Base(b) => Ok(Type::Base(b)),
            Type::List(element) => {
                match self.normalize_type(visited, *element) {
                    Ok(inner) => Ok(Type::List(Box::new(inner))),
                    Err(e) => Err(e),
                }
            },
            Type::Variable { name } => {
                let t2 = Type::Variable { name };
                if contains_type(&visited, &t2) {
                    Err(TypeError::CyclicTypeReference)
                } else {
                    match get_equation(&self.equations, t2) {
                        Some(representative) => Ok(representative),
                        None => Err(TypeError::UnresolvedType),
                    }
                }
            },
            Type::Function { domain, range } => {
                let visited_again = clone_types(&visited);
                match self.normalize_type(visited, *domain) {
                    Ok(domain_normal) => {
                        match self.normalize_type(visited_again, *range) {
                            Ok(range_normal) => Ok(
                                Type::Function {
                                    domain: Box::new(domain_normal),
                                    range: Box::new(range_normal),
                                },
                            ),
                            Err(e) => Err(e),
                        }
                    },
                    Err(e) => Err(e),
                }
            },
        }
    }
}

/// Normalization of `t` against solved equations: recurse through lists
/// and functions; resolve a variable to its representative, unless it was
/// seen before on this path.
pub open spec fn normalize_spec(eqs: Seq<(Ty, Ty)>, visited: Seq<Ty>, t: Ty) -> Result<
    Ty,
    TypeError,
>
    decreases t,
{
    match t {
        Ty::Base(b) => Ok(Ty::Base(b)),
        Ty::List(element) => match normalize_spec(eqs, visited, *element) {
            Ok(inner) => Ok(Ty::List(Box::new(inner))),
            Err(e) => Err(e),
        },
        Ty::Variable(_) => if visited.contains(t) {
            Err(TypeError::CyclicTypeReference)
        } else {
            Ok(get_eq_spec(eqs, t, Set::empty()))
        },
        Ty::Function(domain, range) => match normalize_spec(eqs, visited, *domain) {
            Ok(domain_normal) => match normalize_spec(eqs, visited, *range) {
                Ok(range_normal) => Ok(
                    Ty::Function(Box::new(domain_normal), Box::new(range_normal)),
                ),
                Err(e) => Err(e),
            },
            Err(e) => Err(e),
        },
    }
}

/// Whether `name` is among the scheme's quantified variables.
fn quantifies(variables: &Vec<String>, name: &String) -> (r: bool)
    ensures
        r == names_view(variables@).contains(name@),
{
    let n = variables.len();
    let mut i: usize = 0;
    while i < n
        invariant
            n == variables@.len(),
            i <= n,
            forall|j: int| 0 <= j < i ==> variables@[j]@ != name@,
        decreases n - i,
    {
        if variables[i] == *name {
            proof {
                assert(names_view(variables@)[i as int] == name@);
                assert(names_view(variables@).contains(name@));
            }
            return true;
        }
        i += 1;
    }
    proof {
        assert forall|j: int| 0 <= j < n implies names_view(variables@)[j] != name@ by {
            assert(names_view(variables@)[j] == variables@[j]@);
        }
        assert(!names_view(variables@).contains(name@));
    }
    false
}

/// Whether the scheme uses `name` free: in its inner type but not among
/// its quantifiers.
fn scheme_uses_exec(scheme: &TypeScheme, name: &String) -> (r: bool)
    ensures
        r == scheme_uses(scheme@, name@),
{
    let occurs = occurs_check(name, &scheme.base_type);
    occurs && !quantifies(&scheme.variables, name)
}

/// Whether some binding among the first `n`, other than those whose names
/// are in `skip`, uses `name` free. Later bindings shadow earlier ones.
fn uses_prefix(v: &Vec<(String, TypeScheme)>, n: usize, name: &String, skip: Vec<String>) -> (r:
    bool)
    requires
        n <= v@.len(),
    ensures
        r == map_uses_except(scheme_map(v@.subrange(0, n as int)), names_set(skip@), name@),
    decreases n,
{
    if n == 0 {
        proof {
            assert(v@.subrange(0, 0) =~= Seq::<(String, TypeScheme)>::empty());
            assert(scheme_map(v@.subrange(0, 0)).dom() =~= Set::<Seq<char>>::empty());
        }
        false
    } else {
        let ghost whole = scheme_map(v@.subrange(0, n as int));
        let ghost prefix = scheme_map(v@.subrange(0, n as int - 1));
        let ghost key = v@[n as int - 1].0@;
        let ghost sch = v@[n as int - 1].1@;
        let ghost skips = names_set(skip@);
        proof {
            assert(v@.subrange(0, n as int).drop_last() =~= v@.subrange(0, n as int - 1));
            assert(v@.subrange(0, n as int).last() == v@[n as int - 1]);
            assert(whole == prefix.insert(key, sch));
        }
        let skip_this = crate::unification::contains_name(&skip, &v[n - 1].0);
        if skip_this {
            let r = uses_prefix(v, n - 1, name, skip);
            proof {
                if map_uses_except(whole, skips, name@) {
                    let k = choose|k: Seq<char>|
                        #[trigger] whole.dom().contains(k) && !skips.contains(k) && scheme_uses(
                            whole[k],
                            name@,
                        );
                    assert(k != key);
                    assert(prefix.dom().contains(k) && !skips.contains(k) && scheme_uses(
                        prefix[k],
                        name@,
                    ));
                }
                if map_uses_except(prefix, skips, name@) {
                    let k = choose|k: Seq<char>|
                        #[trigger] prefix.dom().contains(k) && !skips.contains(k) && scheme_uses(
                            prefix[k],
                            name@,
                        );
                    assert(k != key);
                    assert(whole.dom().contains(k) && !skips.contains(k) && scheme_uses(
                        whole[k],
                        name@,
                    ));
                }
            }
            r
        } else if scheme_uses_exec(&v[n - 1].1, name) {
            proof {
                assert(whole.dom().contains(key) && !skips.contains(key) && scheme_uses(
                    whole[key],
                    name@,
                ));
            }
            true
        } else {
            let mut skip2 = skip;
            skip2.push(v[n - 1].0.clone());
            proof {
                assert(skip2@.drop_last() =~= skip@);
                assert(skip2@.last()@ == key);
                assert(names_set(skip2@) == skips.insert(key));
            }
            let r = uses_prefix(v, n - 1, name, skip2);
            proof {
                if map_uses_except(whole, skips, name@) {
                    let k = choose|k: Seq<char>|
                        #[trigger] whole.dom().contains(k) && !skips.contains(k) && scheme_uses(
                            whole[k],
                            name@,
                        );
                    assert(k != key);
                    assert(prefix.dom().contains(k) && !skips.insert(key).contains(k)
                        && scheme_uses(prefix[k], name@));
                }
                if map_uses_except(prefix, skips.insert(key), name@) {
                    let k = choose|k: Seq<char>|
                        #[trigger] prefix.dom().contains(k) && !skips.insert(key).contains(k)
                            && scheme_uses(prefix[k], name@);
                    assert(k != key);
                    assert(whole.dom().contains(k) && !skips.contains(k) && scheme_uses(
                        whole[k],
                        name@,
                    ));
                }
            }
            r
        }
    }
}

/// Whether `t` is among the models of `visited`.
fn contains_type(visited: &Vec<Type>, t: &Type) -> (r: bool)
    ensures
        r == tys_view(visited@).contains(t@),
{
    let n = visited.len();
    let mut i: usize = 0;
    while i < n
        invariant
            n == visited@.len(),
            i <= n,
            forall|j: int| 0 <= j < i ==> visited@[j]@ != t@,
        decreases n - i,
    {
        if type_eq(&visited[i], t) {
            proof {
                assert(tys_view(visited@)[i as int] == t@);
                assert(tys_view(visited@).contains(t@));
            }
            return true;
        }
        i += 1;
    }
    proof {
        assert forall|j: int| 0 <= j < n implies tys_view(visited@)[j] != t@ by {
            assert(tys_view(visited@)[j] == visited@[j]@);
        }
        assert(!tys_view(visited@).contains(t@));
    }
    false
}

/// Clones a list of types, entry by entry.
fn clone_types(v: &Vec<Type>) -> (r: Vec<Type>)
    ensures
        r@ == v@,
{
    let mut out: Vec<Type> = Vec::new();
    let n = v.len();
    let mut i: usize = 0;
    while i < n
        invariant
            n == v@.len(),
            i <= n,
            out@.len() == i,
            forall|j: int| 0 <= j < i ==> out@[j] == v@[j],
        decreases n - i,
    {
        out.push(v[i].clone());
        i += 1;
    }
    proof {
        assert(out@ =~= v@);
    }
    out
}

/// Generalization respects the environment: a type variable that some
/// scheme of the environment still uses free is never generalized,
/// whatever the candidate list.
pub proof fn lemma_generalization_respects_environment(
    vars: Seq<Seq<char>>,
    m: Map<Seq<char>, Scheme>,
    v: Seq<char>,
)
    requires
        map_uses(m, v),
    ensures
        !unbound_spec(vars, map_free_set(m)).contains(v),
    decreases vars.len(),
{
    let bound = map_free_set(m);
    assert(bound.contains(v));
    if vars.len() > 0 {
        lemma_generalization_respects_environment(vars.drop_last(), m, v);
        let rest = unbound_spec(vars.drop_last(), bound);
        if !bound.contains(vars.last()) {
            let whole = rest.push(vars.last());
            if whole.contains(v) {
                let i = choose|i: int| 0 <= i < whole.len() && whole[i] == v;
                if i < rest.len() {
                    assert(rest[i] == v);
                    assert(rest.contains(v));
                } else {
                    assert(vars.last() == v);
                }
            }
        }
    }
}

} // verus!
