//! Object-language types: base types, lists, type variables and function
//! types, with substitution and free-variable collection.

use vstd::prelude::*;

verus! {

/// A base type of the object language.
#[derive(Debug, Clone, Copy, PartialEq, Eq, Hash, Structural)]
pub enum BaseType {
    Integer,
    Bool,
}

/// Mathematical model of a type: variable names are character sequences.
pub ghost enum Ty {
    Base(BaseType),
    List(Box<Ty>),
    Variable(Seq<char>),
    Function(Box<Ty>, Box<Ty>),
}

/// A type of the object language.
#[derive(Debug, Hash)]
pub enum Type {
    Base(BaseType),
    List(Box<Type>),
    Variable { name: String },
    Function { domain: Box<Type>, range: Box<Type> },
}

/// The model of a type.
pub open spec fn ty_view(t: Type) -> Ty
    decreases t,
{
    match t {
        Type::Base(b) => Ty::Base(b),
        Type::List(element) => Ty::List(Box::new(ty_view(*element))),
        Type::Variable { name } => Ty::Variable(name@),
        Type::Function { domain, range } => Ty::Function(
            Box::new(ty_view(*domain)),
            Box::new(ty_view(*range)),
        ),
    }
}

impl View for Type {
    type V = Ty;

    open spec fn view(&self) -> Ty {
        ty_view(*self)
    }
}

/// The set of type-variable names occurring in `t`.
pub open spec fn ty_vars(t: Ty) -> Set<Seq<char>>
    decreases t,
{
    match t {
        Ty::Base(_) => Set::empty(),
        Ty::List(element) => ty_vars(*element),
        Ty::Variable(name) => Set::empty().insert(name),
        Ty::Function(domain, range) => ty_vars(*domain).union(ty_vars(*range)),
    }
}

/// The set of type-variable names of a type is finite.
pub proof fn lemma_ty_vars_finite(t: Ty)
    ensures
        ty_vars(t).finite(),
    decreases t,
{
    match t {
        Ty::Base(_) => {},
        Ty::List(element) => lemma_ty_vars_finite(*element),
        Ty::Variable(_) => {},
        Ty::Function(domain, range) => {
            lemma_ty_vars_finite(*domain);
            lemma_ty_vars_finite(*range);
        },
    }
}

/// A syntactic size for types: every type has size at least one.
pub open spec fn ty_size(t: Ty) -> nat
    decreases t,
{
    match t {
        Ty::Base(_) => 1,
        Ty::List(element) => 1 + ty_size(*element),
        Ty::Variable(_) => 1,
        Ty::Function(domain, range) => 1 + ty_size(*domain) + ty_size(*range),
    }
}

/// Renaming `target` to `replacement` among the type variables of `t`.
pub open spec fn ty_rename(t: Ty, target: Seq<char>, replacement: Seq<char>) -> Ty
    decreases t,
{
    match t {
        Ty::Base(b) => Ty::Base(b),
        Ty::List(element) => Ty::List(Box::new(ty_rename(*element, target, replacement))),
        Ty::Variable(name) => if name == target {
            Ty::Variable(replacement)
        } else {
            Ty::Variable(name)
        },
        Ty::Function(domain, range) => Ty::Function(
            Box::new(ty_rename(*domain, target, replacement)),
            Box::new(ty_rename(*range, target, replacement)),
        ),
    }
}

/// Substituting `replacement` for the type variable `target` throughout
/// `t`.
pub open spec fn ty_subst(t: Ty, target: Seq<char>, replacement: Ty) -> Ty
    decreases t,
{
    match t {
        Ty::Base(b) => Ty::Base(b),
        Ty::List(element) => Ty::List(Box::new(ty_subst(*element, target, replacement))),
        Ty::Variable(name) => if name == target {
            replacement
        } else {
            Ty::Variable(name)
        },
        Ty::Function(domain, range) => Ty::Function(
            Box::new(ty_subst(*domain, target, replacement)),
            Box::new(ty_subst(*range, target, replacement)),
        ),
    }
}

/// Substitution eliminates the substituted variable and introduces only
/// variables of the replacement.
pub proof fn lemma_ty_subst_vars(t: Ty, target: Seq<char>, replacement: Ty)
    ensures
        ty_vars(ty_subst(t, target, replacement)).subset_of(
            ty_vars(t).remove(target).union(ty_vars(replacement)),
        ),
        !ty_vars(replacement).contains(target) ==> !ty_vars(
            ty_subst(t, target, replacement),
        ).contains(target),
    decreases t,
{
    match t {
        Ty::Base(_) => {},
        Ty::List(element) => lemma_ty_subst_vars(*element, target, replacement),
        Ty::Variable(_) => {},
        Ty::Function(domain, range) => {
            lemma_ty_subst_vars(*domain, target, replacement);
            lemma_ty_subst_vars(*range, target, replacement);
        },
    }
}

/// The names of a sequence of symbols.
pub open spec fn names_view(s: Seq<String>) -> Seq<Seq<char>> {
    s.map_values(|x: String| x@)
}

/// The free type variables of `t`, one for each occurrence, from left to
/// right.
pub open spec fn ty_free_seq(t: Ty) -> Seq<Seq<char>>
    decreases t,
{
    match t {
        Ty::Base(_) => Seq::empty(),
        Ty::List(element) => ty_free_seq(*element),
        Ty::Variable(name) => seq![name],
        Ty::Function(domain, range) => ty_free_seq(*domain) + ty_free_seq(*range),
    }
}

/// The occurrence list of free variables mentions exactly the names in the
/// variable set.
pub proof fn lemma_free_seq_vars(t: Ty)
    ensures
        forall|v: Seq<char>| ty_free_seq(t).contains(v) <==> ty_vars(t).contains(v),
    decreases t,
{
    match t {
        Ty::Base(_) => {
            assert(ty_free_seq(t).len() == 0);
        },
        Ty::List(element) => {
            lemma_free_seq_vars(*element);
            assert(ty_free_seq(t) == ty_free_seq(*element));
            assert(ty_vars(t) == ty_vars(*element));
        },
        Ty::Variable(name) => {
            assert(ty_free_seq(t)[0] == name);
            assert(ty_free_seq(t).contains(name));
            assert forall|v: Seq<char>| ty_free_seq(t).contains(v) implies ty_vars(t).contains(
                v,
            ) by {
                assert(ty_free_seq(t)[0] == name);
                assert(ty_free_seq(t).len() == 1);
            }
        },
        Ty::Function(domain, range) => {
            lemma_free_seq_vars(*domain);
            lemma_free_seq_vars(*range);
            let ds = ty_free_seq(*domain);
            let rs = ty_free_seq(*range);
            assert(ty_free_seq(t) == ds + rs);
            assert(ty_vars(t) == ty_vars(*domain).union(ty_vars(*range)));
            assert forall|v: Seq<char>| ty_free_seq(t).contains(v) implies ty_vars(t).contains(
                v,
            ) by {
                let i = choose|i: int| 0 <= i < (ds + rs).len() && (ds + rs)[i] == v;
                if i < ds.len() {
                    assert(ds[i] == v);
                    assert(ds.contains(v));
                } else {
                    assert(rs[i - ds.len()] == v);
                    assert(rs.contains(v));
                }
            }
            assert forall|v: Seq<char>| ty_vars(t).contains(v) implies ty_free_seq(t).contains(
                v,
            ) by {
                if ty_vars(*domain).contains(v) {
                    assert(ds.contains(v));
                    let i = choose|i: int| 0 <= i < ds.len() && ds[i] == v;
                    assert((ds + rs)[i] == v);
                    assert((ds + rs).contains(v));
                } else {
                    assert(rs.contains(v));
                    let i = choose|i: int| 0 <= i < rs.len() && rs[i] == v;
                    assert((ds + rs)[ds.len() + i] == v);
                    assert((ds + rs).contains(v));
                }
            }
        },
    }
}

/// Structural equality of two types, name for name.
pub(crate) fn type_eq(a: &Type, b: &Type) -> (r: bool)
    ensures
        r == (a@ == b@),
    decreases a,
{
    match (a, b) {
        (Type::Base(b1), Type::Base(b2)) => {
            let r = *b1 == *b2;
            proof {
                if r {
                    assert(a@ == b@);
                } else {
                    assert(a@ != b@);
                }
            }
            r
        },
        (Type::List(e1), Type::List(e2)) => {
            let r = type_eq(e1, e2);
            proof {
                assert(a@ == Ty::List(Box::new(e1@)));
                assert(b@ == Ty::List(Box::new(e2@)));
                if r {
                    assert(a@ == b@);
                } else {
                    assert(a@ != b@);
                }
            }
            r
        },
        (Type::Variable { name: n1 }, Type::Variable { name: n2 }) => {
            let r = *n1 == *n2;
            proof {
                if r {
                    assert(a@ == b@);
                } else {
                    assert(a@ != b@);
                }
            }
            r
        },
        (Type::Function { domain: d1, range: r1 }, Type::Function { domain: d2, range: r2 }) => {
            let de = type_eq(d1, d2);
            let r = de && type_eq(r1, r2);
            proof {
                if r {
                    assert(a@ == b@);
                } else {
                    assert(a@ != b@);
                }
            }
            r
        },
        _ => {
            proof {
                assert(a@ != b@);
            }
            false
        },
    }
}

impl PartialEq for Type {
    /// Two types are equal when their models are.
    fn eq(&self, other: &Type) -> (r: bool)
        ensures
            r == (self@ == other@),
    {
        type_eq(self, other)
    }
}

impl Eq for Type {

}

impl vstd::std_specs::cmp::PartialEqSpecImpl for Type {
    open spec fn obeys_eq_spec() -> bool {
        true
    }

    open spec fn eq_spec(&self, other: &Type) -> bool {
        self@ == other@
    }
}

impl Clone for Type {
    /// A clone is equal to the original.
    fn clone(&self) -> (r: Self)
        ensures
            r == *self,
        decreases self,
    {
        match self {
            Type::Base(b) => Type::Base(*b),
            Type::List(element) => Type::List(Box::new((**element).clone())),
            Type::Variable { name } => Type::Variable { name: name.clone() },
            Type::Function { domain, range } => Type::Function {
                domain: Box::new((**domain).clone()),
                range: Box::new((**range).clone()),
            },
        }
    }
}

impl Type {
    /// Renames the type variable `target_variable_name` to
    /// `new_variable_name` throughout `self`.
    pub fn apply_substitution(
        self,
        target_variable_name: String,
        new_variable_name: String,
    ) -> (r: Self)
        ensures
            r@ == ty_rename(self@, target_variable_name@, new_variable_name@),
        decreases self,
    {
        match self {
            Type::Variable { name } => if name == target_variable_name {
                Type::Variable { name: new_variable_name }
            } else {
                Type::Variable { name }
            },
            Type::List(element) => Type::List(
                Box::new(
                    (*element).apply_substitution(target_variable_name, new_variable_name),
                ),
            ),
            Type::Function { domain, range } => Type::Function {
                domain: Box::new(
                    (*domain).apply_substitution(
                        target_variable_name.clone(),
                        new_variable_name.clone(),
                    ),
                ),
                range: Box::new(
                    (*range).apply_substitution(target_variable_name, new_variable_name),
                ),
            },
            t => t,
        }
    }

    /// Substitutes `new_type` for the type variable
    /// `target_variable_name` throughout `self`.
    pub fn apply_substitution_for_type(self, target_variable_name: String, new_type: Type) -> (r:
        Self)
        ensures
            r@ == ty_subst(self@, target_variable_name@, new_type@),
        decreases self,
    {
        match self {
            Type::Variable { name } => if name == target_variable_name {
                new_type
            } else {
                Type::Variable { name }
            },
            Type::List(element) => Type::List(
                Box::new(
                    (*element).apply_substitution_for_type(target_variable_name, new_type),
                ),
            ),
            Type::Function { domain, range } => Type::Function {
                domain: Box::new(
                    (*domain).apply_substitution_for_type(
                        target_variable_name.clone(),
                        new_type.clone(),
                    ),
                ),
                range: Box::new(
                    (*range).apply_substitution_for_type(target_variable_name, new_type),
                ),
            },
            t => t,
        }
    }
}

/// The free type variables of `t`, one entry for each occurrence, from
/// left to right.
pub fn free_type_variables(t: Type) -> (r: Vec<String>)
    ensures
        names_view(r@) == ty_free_seq(t@),
{
    let mut out: Vec<String> = Vec::new();
    collect_free_variables(&t, &mut out);
    proof {
        assert(names_view(out@) =~= ty_free_seq(t@));
    }
    out
}

/// Appends the free variables of `t` to `out` in order of occurrence.
fn collect_free_variables(t: &Type, out: &mut Vec<String>)
    ensures
        names_view(final(out)@) == names_view(old(out)@) + ty_free_seq(t@),
    decreases t,
{
    let ghost prefix = out@;
    match t {
        Type::Base(_) => {
            proof {
                assert(names_view(out@) =~= names_view(prefix) + ty_free_seq(t@));
            }
        },
        Type::List(element) => {
            collect_free_variables(element, out);
        },
        Type::Variable { name } => {
            out.push(name.clone());
            proof {
                assert(names_view(out@) =~= names_view(prefix) + ty_free_seq(t@));
            }
        },
        Type::Function { domain, range } => {
            collect_free_variables(domain, out);
            collect_free_variables(range, out);
            proof {
                assert(names_view(out@) =~= names_view(prefix) + ty_free_seq(t@));
            }
        },
    }
}

} // verus!
