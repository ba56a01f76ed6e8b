//! The equation store: a collection of required type equalities, solved by
//! first-order unification with an occurs check into a substitution.
//!
//! Unification terminates: every step either eliminates a type variable
//! for good or strictly shrinks the equations, which the `decreases`
//! measures below make precise.

use vstd::prelude::*;
use vstd::set_lib::lemma_len_subset;

use crate::errors::TypeError;
use crate::types::{
    lemma_ty_subst_vars, lemma_ty_vars_finite, ty_size, ty_subst, ty_vars, type_eq, Ty,
    Type,
};

verus! {

/// The models of a sequence of equations.
pub open spec fn eqs_view(s: Seq<(Type, Type)>) -> Seq<(Ty, Ty)> {
    s.map_values(|p: (Type, Type)| (p.0@, p.1@))
}

/// A set of type equations, each an unordered pair of required equals;
/// during unification it also carries the substitution being built.
#[derive(Debug)]
pub struct Equations {
    pub pairs: Vec<(Type, Type)>,
}

impl View for Equations {
    type V = Seq<(Ty, Ty)>;

    open spec fn view(&self) -> Seq<(Ty, Ty)> {
        eqs_view(self.pairs@)
    }
}

impl Equations {
    /// An empty store.
    pub fn new() -> (r: Self)
        ensures
            r@ == Seq::<(Ty, Ty)>::empty(),
    {
        let r = Equations { pairs: Vec::new() };
        proof {
            assert(r@ =~= Seq::<(Ty, Ty)>::empty());
        }
        r
    }
}

impl Default for Equations {
    /// An empty store.
    fn default() -> (r: Self)
        ensures
            r@ == Seq::<(Ty, Ty)>::empty(),
    {
        Equations::new()
    }
}

impl Clone for Equations {
    /// A clone has the same model as the original.
    fn clone(&self) -> (r: Self)
        ensures
            r@ == self@,
    {
        let mut pairs: Vec<(Type, Type)> = Vec::new();
        let n = self.pairs.len();
        let mut i: usize = 0;
        while i < n
            invariant
                n == self.pairs@.len(),
                i <= n,
                pairs@.len() == i,
                forall|j: int| 0 <= j < i ==> pairs@[j].0@ == self.pairs@[j].0@ && pairs@[j].1@
                    == self.pairs@[j].1@,
            decreases n - i,
        {
            pairs.push((self.pairs[i].0.clone(), self.pairs[i].1.clone()));
            i += 1;
        }
        let r = Equations { pairs };
        proof {
            assert(r@ =~= self@);
        }
        r
    }
}

/// The variable names of one equation.
pub open spec fn pair_vars(p: (Ty, Ty)) -> Set<Seq<char>> {
    ty_vars(p.0).union(ty_vars(p.1))
}

/// The variable names of a store.
pub open spec fn eqs_vars(eqs: Seq<(Ty, Ty)>) -> Set<Seq<char>>
    decreases eqs.len(),
{
    if eqs.len() == 0 {
        Set::empty()
    } else {
        eqs_vars(eqs.drop_last()).union(pair_vars(eqs.last()))
    }
}

/// The syntactic size of one equation: at least two.
pub open spec fn pair_size(p: (Ty, Ty)) -> nat {
    ty_size(p.0) + ty_size(p.1)
}

/// The total syntactic size of a store.
pub open spec fn eqs_size(eqs: Seq<(Ty, Ty)>) -> nat
    decreases eqs.len(),
{
    if eqs.len() == 0 {
        0
    } else {
        eqs_size(eqs.drop_last()) + pair_size(eqs.last())
    }
}

/// Every type has positive size.
proof fn lemma_ty_size_pos(t: Ty)
    ensures
        ty_size(t) >= 1,
{
    match t {
        Ty::Base(_) => {},
        Ty::List(_) => {},
        Ty::Variable(_) => {},
        Ty::Function(_, _) => {},
    }
}

/// The variable set of a store is finite.
pub proof fn lemma_eqs_vars_finite(eqs: Seq<(Ty, Ty)>)
    ensures
        eqs_vars(eqs).finite(),
    decreases eqs.len(),
{
    if eqs.len() > 0 {
        lemma_eqs_vars_finite(eqs.drop_last());
        lemma_ty_vars_finite(eqs.last().0);
        lemma_ty_vars_finite(eqs.last().1);
    }
}

/// Dropping the last equation keeps the variables within the store's and
/// removes that equation's size from the total.
proof fn lemma_eqs_drop_last(eqs: Seq<(Ty, Ty)>)
    requires
        eqs.len() > 0,
    ensures
        eqs_vars(eqs.drop_last()).subset_of(eqs_vars(eqs)),
        eqs_size(eqs) == eqs_size(eqs.drop_last()) + pair_size(eqs.last()),
{
}

/// Inserting an equation unless it is present.
pub open spec fn add_eq_spec(eqs: Seq<(Ty, Ty)>, p: (Ty, Ty)) -> Seq<(Ty, Ty)> {
    if eqs.contains(p) {
        eqs
    } else {
        eqs.push(p)
    }
}

/// Adding an equation adds at most its variables and its size.
proof fn lemma_add_eq(eqs: Seq<(Ty, Ty)>, p: (Ty, Ty))
    ensures
        eqs_vars(add_eq_spec(eqs, p)).subset_of(eqs_vars(eqs).union(pair_vars(p))),
        eqs_size(add_eq_spec(eqs, p)) <= eqs_size(eqs) + pair_size(p),
{
    if !eqs.contains(p) {
        assert(eqs.push(p).drop_last() =~= eqs);
        assert(eqs.push(p).last() == p);
    }
}

/// Removing one occurrence of an equation, searching from the end.
pub open spec fn remove_eq_spec(eqs: Seq<(Ty, Ty)>, p: (Ty, Ty)) -> Seq<(Ty, Ty)>
    decreases eqs.len(),
{
    if eqs.len() == 0 {
        eqs
    } else if eqs.last() == p {
        eqs.drop_last()
    } else {
        remove_eq_spec(eqs.drop_last(), p).push(eqs.last())
    }
}

/// Substituting `t` for the variable `name` on both sides of every
/// equation.
pub open spec fn subst_all_spec(eqs: Seq<(Ty, Ty)>, name: Seq<char>, t: Ty) -> Seq<(Ty, Ty)> {
    eqs.map_values(|p: (Ty, Ty)| (ty_subst(p.0, name, t), ty_subst(p.1, name, t)))
}

/// Substitution throughout a store eliminates the substituted variable and
/// introduces only variables of the replacement.
proof fn lemma_subst_all_vars(eqs: Seq<(Ty, Ty)>, name: Seq<char>, t: Ty)
    requires
        !ty_vars(t).contains(name),
    ensures
        eqs_vars(subst_all_spec(eqs, name, t)).subset_of(
            eqs_vars(eqs).remove(name).union(ty_vars(t)),
        ),
        !eqs_vars(subst_all_spec(eqs, name, t)).contains(name),
    decreases eqs.len(),
{
    let sub = subst_all_spec(eqs, name, t);
    if eqs.len() == 0 {
        assert(sub =~= Seq::<(Ty, Ty)>::empty());
    } else {
        assert(sub.len() == eqs.len());
        assert(sub.drop_last() =~= subst_all_spec(eqs.drop_last(), name, t));
        assert(sub.last() == (
            ty_subst(eqs.last().0, name, t),
            ty_subst(eqs.last().1, name, t),
        ));
        lemma_subst_all_vars(eqs.drop_last(), name, t);
        lemma_ty_subst_vars(eqs.last().0, name, t);
        lemma_ty_subst_vars(eqs.last().1, name, t);
        assert(eqs_vars(sub) == eqs_vars(sub.drop_last()).union(pair_vars(sub.last())));
        assert forall|v: Seq<char>| eqs_vars(sub).contains(v) implies eqs_vars(eqs).remove(
            name,
        ).union(ty_vars(t)).contains(v) by {
            if eqs_vars(sub.drop_last()).contains(v) {
            } else {
                assert(pair_vars(sub.last()).contains(v));
            }
        }
    }
}

/// The variables of each equation are among the store's.
proof fn lemma_eqs_vars_index(eqs: Seq<(Ty, Ty)>, i: int)
    requires
        0 <= i < eqs.len(),
    ensures
        pair_vars(eqs[i]).subset_of(eqs_vars(eqs)),
    decreases eqs.len(),
{
    if i == eqs.len() - 1 {
        assert(eqs.last() == eqs[i]);
    } else {
        lemma_eqs_vars_index(eqs.drop_last(), i);
        assert(eqs.drop_last()[i] == eqs[i]);
    }
}

/// Unification. Picks the last pending equation and dispatches on its
/// shape: discard equal sides; eliminate a variable after the occurs
/// check, substituting it away everywhere; decompose functions and lists;
/// fail on incompatible shapes. On success the accumulated substitution is
/// returned.
pub open spec fn unify_spec(eqs: Seq<(Ty, Ty)>, subs: Seq<(Ty, Ty)>) -> Result<
    Seq<(Ty, Ty)>,
    TypeError,
>
    decreases eqs_vars(eqs).len(), eqs_size(eqs), 1int,
    via unify_spec_dec
{
    if eqs.len() == 0 {
        Ok(subs)
    } else {
        let t1 = eqs.last().0;
        let t2 = eqs.last().1;
        let remaining = eqs.drop_last();
        if t1 == t2 {
            unify_spec(remaining, subs)
        } else {
            match (t1, t2) {
                (Ty::Variable(name), other) => unify2_spec(remaining, subs, name, other),
                (other, Ty::Variable(name)) => unify2_spec(remaining, subs, name, other),
                (Ty::Function(domain1, range1), Ty::Function(domain2, range2)) => unify_spec(
                    add_eq_spec(add_eq_spec(remaining, (*domain1, *domain2)), (*range1, *range2)),
                    subs,
                ),
                (Ty::List(inner1), Ty::List(inner2)) => unify_spec(
                    add_eq_spec(remaining, (*inner1, *inner2)),
                    subs,
                ),
                _ => Err(TypeError::UnificationImpossible),
            }
        }
    }
}

/// Variable elimination: `name` must not occur in `t`; then `t` replaces
/// `name` in the pending equations and the substitution, and the pair
/// joins the substitution.
pub open spec fn unify2_spec(eqs: Seq<(Ty, Ty)>, subs: Seq<(Ty, Ty)>, name: Seq<char>, t: Ty)
    -> Result<Seq<(Ty, Ty)>, TypeError>
    decreases
            eqs_vars(eqs).union(ty_vars(t)).insert(name).len(),
            eqs_size(eqs) + ty_size(t) + 1,
            0int,
    via unify2_spec_dec
{
    if ty_vars(t).contains(name) {
        Err(TypeError::CircularReference)
    } else {
        unify_spec(
            subst_all_spec(eqs, name, t),
            add_eq_spec(subst_all_spec(subs, name, t), (Ty::Variable(name), t)),
        )
    }
}

/// The measure facts for the discard and decomposition steps and for the
/// hand-off to variable elimination.
proof fn lemma_unify_step(eqs: Seq<(Ty, Ty)>)
    requires
        eqs.len() > 0,
    ensures
        eqs_vars(eqs).finite(),
        eqs_vars(eqs.drop_last()).finite(),
        eqs_vars(eqs.drop_last()).len() <= eqs_vars(eqs).len(),
        eqs_size(eqs.drop_last()) + pair_size(eqs.last()) == eqs_size(eqs),
        pair_size(eqs.last()) >= 2,
{
    lemma_eqs_vars_finite(eqs);
    lemma_eqs_drop_last(eqs);
    lemma_len_subset(eqs_vars(eqs.drop_last()), eqs_vars(eqs));
    lemma_ty_size_pos(eqs.last().0);
    lemma_ty_size_pos(eqs.last().1);
}

/// When the last equation pairs the variable `name` with `other`, the
/// elimination measure set equals the store's variable set.
proof fn lemma_unify_var_step(eqs: Seq<(Ty, Ty)>, name: Seq<char>, other: Ty)
    requires
        eqs.len() > 0,
        pair_vars(eqs.last()) == Set::empty().insert(name).union(ty_vars(other)),
    ensures
        eqs_vars(eqs.drop_last()).union(ty_vars(other)).insert(name) =~= eqs_vars(eqs),
{
}

/// The decomposition measure facts for functions.
proof fn lemma_unify_fn_step(eqs: Seq<(Ty, Ty)>, d1: Ty, r1: Ty, d2: Ty, r2: Ty)
    requires
        eqs.len() > 0,
        eqs.last().0 == Ty::Function(Box::new(d1), Box::new(r1)),
        eqs.last().1 == Ty::Function(Box::new(d2), Box::new(r2)),
    ensures
        eqs_vars(add_eq_spec(add_eq_spec(eqs.drop_last(), (d1, d2)), (r1, r2))).finite(),
        eqs_vars(add_eq_spec(add_eq_spec(eqs.drop_last(), (d1, d2)), (r1, r2))).len()
            <= eqs_vars(eqs).len(),
        eqs_size(add_eq_spec(add_eq_spec(eqs.drop_last(), (d1, d2)), (r1, r2))) < eqs_size(eqs),
{
    let rem = eqs.drop_last();
    let one = add_eq_spec(rem, (d1, d2));
    let two = add_eq_spec(one, (r1, r2));
    lemma_eqs_drop_last(eqs);
    lemma_add_eq(rem, (d1, d2));
    lemma_add_eq(one, (r1, r2));
    lemma_eqs_vars_finite(eqs);
    assert(pair_vars(eqs.last()) =~= pair_vars((d1, d2)).union(pair_vars((r1, r2))));
    assert(eqs_vars(two).subset_of(eqs_vars(eqs)));
    lemma_len_subset(eqs_vars(two), eqs_vars(eqs));
    assert(pair_size(eqs.last()) == pair_size((d1, d2)) + pair_size((r1, r2)) + 2);
}

/// The decomposition measure facts for lists.
proof fn lemma_unify_list_step(eqs: Seq<(Ty, Ty)>, i1: Ty, i2: Ty)
    requires
        eqs.len() > 0,
        eqs.last().0 == Ty::List(Box::new(i1)),
        eqs.last().1 == Ty::List(Box::new(i2)),
    ensures
        eqs_vars(add_eq_spec(eqs.drop_last(), (i1, i2))).finite(),
        eqs_vars(add_eq_spec(eqs.drop_last(), (i1, i2))).len() <= eqs_vars(eqs).len(),
        eqs_size(add_eq_spec(eqs.drop_last(), (i1, i2))) < eqs_size(eqs),
{
    let rem = eqs.drop_last();
    let one = add_eq_spec(rem, (i1, i2));
    lemma_eqs_drop_last(eqs);
    lemma_add_eq(rem, (i1, i2));
    lemma_eqs_vars_finite(eqs);
    assert(pair_vars(eqs.last()) =~= pair_vars((i1, i2)));
    assert(eqs_vars(one).subset_of(eqs_vars(eqs)));
    lemma_len_subset(eqs_vars(one), eqs_vars(eqs));
    assert(pair_size(eqs.last()) == pair_size((i1, i2)) + 2);
}

/// Elimination strictly shrinks the variable set.
proof fn lemma_unify2_step(eqs: Seq<(Ty, Ty)>, subs: Seq<(Ty, Ty)>, name: Seq<char>, t: Ty)
    requires
        !ty_vars(t).contains(name),
    ensures
        eqs_vars(subst_all_spec(eqs, name, t)).finite(),
        eqs_vars(subst_all_spec(eqs, name, t)).len() < eqs_vars(eqs).union(ty_vars(t)).insert(
            name,
        ).len(),
{
    let sub = subst_all_spec(eqs, name, t);
    let big = eqs_vars(eqs).union(ty_vars(t)).insert(name);
    lemma_eqs_vars_finite(eqs);
    lemma_ty_vars_finite(t);
    lemma_subst_all_vars(eqs, name, t);
    assert(sub == subst_all_spec(eqs, name, t));
    assert(eqs_vars(sub).subset_of(big));
    lemma_len_subset(eqs_vars(sub), big);
    eqs_vars(sub).lemma_subset_not_in_lt(big, name);
}

#[via_fn]
proof fn unify_spec_dec(eqs: Seq<(Ty, Ty)>, subs: Seq<(Ty, Ty)>) {
    if eqs.len() > 0 {
        let t1 = eqs.last().0;
        let t2 = eqs.last().1;
        lemma_unify_step(eqs);
        if t1 != t2 {
            match (t1, t2) {
                (Ty::Variable(name), other) => {
                    assert(pair_vars(eqs.last()) =~= Set::empty().insert(name).union(
                        ty_vars(other),
                    ));
                    lemma_unify_var_step(eqs, name, other);
                },
                (other, Ty::Variable(name)) => {
                    assert(pair_vars(eqs.last()) =~= Set::empty().insert(name).union(
                        ty_vars(other),
                    ));
                    lemma_unify_var_step(eqs, name, other);
                },
                (Ty::Function(domain1, range1), Ty::Function(domain2, range2)) => {
                    lemma_unify_fn_step(eqs, *domain1, *range1, *domain2, *range2);
                },
                (Ty::List(inner1), Ty::List(inner2)) => {
                    lemma_unify_list_step(eqs, *inner1, *inner2);
                },
                _ => {},
            }
        }
    }
}

#[via_fn]
proof fn unify2_spec_dec(eqs: Seq<(Ty, Ty)>, subs: Seq<(Ty, Ty)>, name: Seq<char>, t: Ty) {
    if !ty_vars(t).contains(name) {
        lemma_unify2_step(eqs, subs, name, t);
    }
}

/// The set of names of a sequence of symbols.
pub open spec fn names_set(s: Seq<String>) -> Set<Seq<char>>
    decreases s.len(),
{
    if s.len() == 0 {
        Set::empty()
    } else {
        names_set(s.drop_last()).insert(s.last()@)
    }
}

/// A name is in the set exactly when some symbol of the sequence bears it.
proof fn lemma_names_set_contains(s: Seq<String>, x: Seq<char>)
    ensures
        names_set(s).contains(x) <==> (exists|j: int| 0 <= j < s.len() && s[j]@ == x),
    decreases s.len(),
{
    if s.len() > 0 {
        lemma_names_set_contains(s.drop_last(), x);
        if names_set(s).contains(x) {
            if x == s.last()@ {
                assert(s[s.len() - 1]@ == x);
            } else {
                let j = choose|j: int| 0 <= j < s.drop_last().len() && s.drop_last()[j]@ == x;
                assert(s[j]@ == x);
            }
        }
        if exists|j: int| 0 <= j < s.len() && s[j]@ == x {
            let j = choose|j: int| 0 <= j < s.len() && s[j]@ == x;
            if j < s.len() - 1 {
                assert(s.drop_last()[j]@ == x);
            }
        }
    }
}

/// The first equation mentioning `t` on either side, read as a rewrite of
/// `t` to the other side.
pub open spec fn find_replacement(eqs: Seq<(Ty, Ty)>, t: Ty) -> Option<Ty>
    decreases eqs.len(),
{
    if eqs.len() == 0 {
        None
    } else if eqs.first().0 == t {
        Some(eqs.first().1)
    } else if eqs.first().1 == t {
        Some(eqs.first().0)
    } else {
        find_replacement(eqs.drop_first(), t)
    }
}

/// Dropping the first equation keeps the variables within the store's.
proof fn lemma_eqs_vars_drop_first(eqs: Seq<(Ty, Ty)>)
    requires
        eqs.len() > 0,
    ensures
        eqs_vars(eqs.drop_first()).subset_of(eqs_vars(eqs)),
    decreases eqs.len(),
{
    if eqs.len() == 1 {
        assert(eqs.drop_first() =~= Seq::<(Ty, Ty)>::empty());
    } else {
        lemma_eqs_vars_drop_first(eqs.drop_last());
        assert(eqs.drop_first().drop_last() =~= eqs.drop_last().drop_first());
        assert(eqs.drop_first().last() == eqs.last());
        assert(eqs_vars(eqs.drop_first()) == eqs_vars(eqs.drop_first().drop_last()).union(
            pair_vars(eqs.last()),
        ));
    }
}

/// A type found in the store has its variables among the store's.
proof fn lemma_find_replacement_vars(eqs: Seq<(Ty, Ty)>, t: Ty)
    requires
        find_replacement(eqs, t) is Some,
    ensures
        ty_vars(t).subset_of(eqs_vars(eqs)),
    decreases eqs.len(),
{
    if eqs.first().0 == t || eqs.first().1 == t {
        lemma_eqs_vars_index(eqs, 0);
    } else {
        lemma_find_replacement_vars(eqs.drop_first(), t);
        lemma_eqs_vars_drop_first(eqs);
    }
}

/// Walks chains of variable equalities in the store, in either direction,
/// and returns the representative: the first non-variable reached, or the
/// last variable of the chain, or `t` itself when nothing mentions it. A
/// variable seen before ends the walk.
pub open spec fn get_eq_spec(eqs: Seq<(Ty, Ty)>, t: Ty, visited: Set<Seq<char>>) -> Ty
    decreases eqs_vars(eqs).difference(visited).len(),
    via get_eq_spec_dec
{
    match t {
        Ty::Variable(name) => if visited.contains(name) {
            t
        } else {
            match find_replacement(eqs, t) {
                Some(new_type) => if new_type == t {
                    t
                } else {
                    get_eq_spec(eqs, new_type, visited.insert(name))
                },
                None => t,
            }
        },
        _ => t,
    }
}

/// The chain walk visits a new store variable at every step.
proof fn lemma_get_eq_step(eqs: Seq<(Ty, Ty)>, name: Seq<char>, visited: Set<Seq<char>>)
    requires
        !visited.contains(name),
        find_replacement(eqs, Ty::Variable(name)) is Some,
    ensures
        eqs_vars(eqs).difference(visited.insert(name)).len() < eqs_vars(eqs).difference(
            visited,
        ).len(),
{
    lemma_eqs_vars_finite(eqs);
    lemma_find_replacement_vars(eqs, Ty::Variable(name));
    assert(ty_vars(Ty::Variable(name)).contains(name));
    assert(eqs_vars(eqs).contains(name));
    let diff = eqs_vars(eqs).difference(visited);
    assert(eqs_vars(eqs).difference(visited.insert(name)) =~= diff.remove(name));
    assert(diff.contains(name));
    assert(diff.finite());
    assert(diff.remove(name).len() == diff.len() - 1);
}

#[via_fn]
proof fn get_eq_spec_dec(eqs: Seq<(Ty, Ty)>, t: Ty, visited: Set<Seq<char>>) {
    match t {
        Ty::Variable(name) => {
            if !visited.contains(name) && find_replacement(eqs, t) is Some {
                lemma_get_eq_step(eqs, name, visited);
            }
        },
        _ => {},
    }
}

/// Whether `name` is among the symbols of `visited`.
pub(crate) fn contains_name(visited: &Vec<String>, name: &String) -> (r: bool)
    ensures
        r == names_set(visited@).contains(name@),
{
    let n = visited.len();
    let mut i: usize = 0;
    while i < n
        invariant
            n == visited@.len(),
            i <= n,
            forall|j: int| 0 <= j < i ==> visited@[j]@ != name@,
        decreases n - i,
    {
        if visited[i] == *name {
            proof {
                lemma_names_set_contains(visited@, name@);
            }
            return true;
        }
        i += 1;
    }
    proof {
        lemma_names_set_contains(visited@, name@);
    }
    false
}

/// The first equation mentioning `t` on either side, read as a rewrite.
fn find_replacement_exec(equations: &Equations, t: &Type) -> (r: Option<Type>)
    ensures
        match r {
            Some(x) => find_replacement(equations@, t@) == Some(x@),
            None => find_replacement(equations@, t@) is None,
        },
{
    let n = equations.pairs.len();
    proof {
        assert(equations@.subrange(0, n as int) =~= equations@);
    }
    let mut i: usize = 0;
    while i < n
        invariant
            n == equations.pairs@.len(),
            find_replacement(equations@, t@) == find_replacement(
                equations@.subrange(i as int, n as int),
                t@,
            ),
            i <= n,
        decreases n - i,
    {
        let ghost tail = equations@.subrange(i as int, n as int);
        proof {
            assert(tail.first() == equations@[i as int]);
            assert(equations@[i as int] == (equations.pairs@[i as int].0@, equations.pairs@[
                i as int
            ].1@));
            assert(tail.drop_first() =~= equations@.subrange(i as int + 1, n as int));
        }
        if type_eq(&equations.pairs[i].0, t) {
            return Some(equations.pairs[i].1.clone());
        }
        if type_eq(&equations.pairs[i].1, t) {
            return Some(equations.pairs[i].0.clone());
        }
        i += 1;
    }
    proof {
        assert(equations@.subrange(n as int, n as int) =~= Seq::<(Ty, Ty)>::empty());
    }
    None
}

/// The chain walk, with the variables seen so far.
fn get_equation_internal(equations: &Equations, t: Type, visited: &mut Vec<String>) -> (r: Option<
    Type,
>)
    ensures
        match r {
            Some(x) => x@ == get_eq_spec(equations@, t@, names_set(old(visited)@)),
            None => false,
        },
    decreases eqs_vars(equations@).difference(names_set(visited@)).len(),
{
    let name = match &t {
        Type::Variable { name } => name.clone(),
        _ => {
            return Some(t);
        },
    };
    if contains_name(visited, &name) {
        return Some(t);
    }
    let ghost seen = names_set(visited@);
    visited.push(name.clone());
    proof {
        assert(visited@.drop_last() =~= old(visited)@);
        assert(visited@.last()@ == name@);
        assert(names_set(visited@) == seen.insert(name@));
    }
    match find_replacement_exec(equations, &t) {
        Some(new_type) => {
            if new_type == t {
                Some(t)
            } else {
                proof {
                    lemma_get_eq_step(equations@, name@, seen);
                }
                get_equation_internal(equations, new_type, visited)
            }
        },
        None => Some(t),
    }
}

/// Resolves `t` against the store: the representative type that chains of
/// variable equalities lead to. Every type resolves to something, so the
/// result is never empty.
pub fn get_equation(equations: &Equations, t: Type) -> (r: Option<Type>)
    ensures
        match r {
            Some(x) => x@ == get_eq_spec(equations@, t@, Set::empty()),
            None => false,
        },
{
    let mut visited: Vec<String> = Vec::new();
    proof {
        assert(names_set(visited@) == Set::<Seq<char>>::empty());
    }
    get_equation_internal(equations, t, &mut visited)
}

/// Inserts an equation; the store is unchanged when it already holds the
/// pair.
pub fn add_equation(equations: Equations, type1: Type, type2: Type) -> (r: Equations)
    ensures
        r@ == add_eq_spec(equations@, (type1@, type2@)),
{
    let n = equations.pairs.len();
    let mut i: usize = 0;
    while i < n
        invariant
            n == equations.pairs@.len(),
            i <= n,
            forall|j: int| 0 <= j < i ==> !(equations.pairs@[j].0@ == type1@
                && equations.pairs@[j].1@ == type2@),
        decreases n - i,
    {
        let hit0 = type1 == equations.pairs[i].0;
        let hit = hit0 && type2 == equations.pairs[i].1;
        if hit {
            proof {
                assert(equations@[i as int] == (type1@, type2@));
                assert(equations@.contains((type1@, type2@)));
            }
            return equations;
        }
        i += 1;
    }
    proof {
        assert forall|j: int| 0 <= j < equations@.len() implies equations@[j] != (
            type1@,
            type2@,
        ) by {
            assert(equations@[j] == (equations.pairs@[j].0@, equations.pairs@[j].1@));
        }
        assert(!equations@.contains((type1@, type2@)));
    }
    let ghost old_pairs = equations.pairs@;
    let mut pairs = equations.pairs;
    pairs.push((type1, type2));
    let r = Equations { pairs };
    proof {
        assert(r@ =~= eqs_view(old_pairs).push((type1@, type2@)));
    }
    r
}

/// Takes one equation out of the store: the one picked last in.
fn pick_equation(equations: &Equations) -> (r: Option<(Type, Type)>)
    ensures
        match r {
            Some(p) => equations@.len() > 0 && (p.0@, p.1@) == equations@.last(),
            None => equations@.len() == 0,
        },
{
    let n = equations.pairs.len();
    if n == 0 {
        None
    } else {
        let t1 = equations.pairs[n - 1].0.clone();
        let t2 = equations.pairs[n - 1].1.clone();
        Some((t1, t2))
    }
}

/// Removes one occurrence of the equation, searching from the end.
fn remove_equation(equations: Equations, pair: (Type, Type)) -> (r: Equations)
    ensures
        r@ == remove_eq_spec(equations@, (pair.0@, pair.1@)),
    decreases equations.pairs@.len(),
{
    let ghost before = equations@;
    let mut pairs = equations.pairs;
    match pairs.pop() {
        None => {
            let r = Equations { pairs };
            proof {
                assert(r@ =~= before);
            }
            r
        },
        Some(last) => {
            proof {
                assert(eqs_view(pairs@) =~= before.drop_last());
                assert(before.last() == (last.0@, last.1@));
            }
            let hit0 = last.0 == pair.0;
            let hit = hit0 && last.1 == pair.1;
            if hit {
                Equations { pairs }
            } else {
                let rest = remove_equation(Equations { pairs }, pair);
                let mut out = rest.pairs;
                let ghost out_before = out@;
                out.push(last);
                let r = Equations { pairs: out };
                proof {
                    assert(r@ =~= eqs_view(out_before).push((last.0@, last.1@)));
                }
                r
            }
        },
    }
}

/// Whether the variable `variable_name` occurs anywhere inside `t`.
pub(crate) fn occurs_check(variable_name: &String, t: &Type) -> (r: bool)
    ensures
        r == ty_vars(t@).contains(variable_name@),
    decreases t,
{
    match t {
        Type::Base(_) => {
            proof {
                assert(!ty_vars(t@).contains(variable_name@));
            }
            false
        },
        Type::List(element) => {
            let r = occurs_check(variable_name, element);
            proof {
                assert(ty_vars(t@) == ty_vars(element@));
                assert(r == ty_vars(t@).contains(variable_name@));
            }
            r
        },
        Type::Variable { name } => {
            let r = *name == *variable_name;
            proof {
                assert(ty_vars(t@) == Set::empty().insert(name@));
                assert(r == ty_vars(t@).contains(variable_name@));
            }
            r
        },
        Type::Function { domain, range } => {
            let in_domain = occurs_check(variable_name, domain);
            let r = in_domain || occurs_check(variable_name, range);
            proof {
                assert(ty_vars(t@) == ty_vars(domain@).union(ty_vars(range@)));
                assert(r == ty_vars(t@).contains(variable_name@));
            }
            r
        },
    }
}

/// Substitutes `t` for `variable_name` on both sides of every equation.
fn apply_substitution_to_all(equations: Equations, variable_name: String, t: Type) -> (r:
    Equations)
    ensures
        r@ == subst_all_spec(equations@, variable_name@, t@),
{
    let n = equations.pairs.len();
    let mut pairs: Vec<(Type, Type)> = Vec::new();
    let mut i: usize = 0;
    while i < n
        invariant
            n == equations.pairs@.len(),
            i <= n,
            pairs@.len() == i,
            forall|j: int| 0 <= j < i ==> pairs@[j].0@ == ty_subst(
                equations.pairs@[j].0@,
                variable_name@,
                t@,
            ) && pairs@[j].1@ == ty_subst(equations.pairs@[j].1@, variable_name@, t@),
        decreases n - i,
    {
        let left = equations.pairs[i].0.clone().apply_substitution_for_type(
            variable_name.clone(),
            t.clone(),
        );
        let right = equations.pairs[i].1.clone().apply_substitution_for_type(
            variable_name.clone(),
            t.clone(),
        );
        pairs.push((left, right));
        i += 1;
    }
    let r = Equations { pairs };
    proof {
        assert forall|j: int| 0 <= j < n implies r@[j] == subst_all_spec(
            equations@,
            variable_name@,
            t@,
        )[j] by {
            assert(equations@[j] == (equations.pairs@[j].0@, equations.pairs@[j].1@));
        }
        assert(r@ =~= subst_all_spec(equations@, variable_name@, t@));
    }
    r
}

/// Solves the pending equations, starting from the substitutions
/// accumulated so far: the solved substitution, or *unification
/// impossible*, or *circular reference* from the occurs check.
pub fn unify(equations: Equations, substitutions: Equations) -> (r: Result<Equations, TypeError>)
    ensures
        match r {
            Ok(s) => unify_spec(equations@, substitutions@) == Ok::<Seq<(Ty, Ty)>, TypeError>(s@),
            Err(e) => unify_spec(equations@, substitutions@) == Err::<Seq<(Ty, Ty)>, TypeError>(
                e,
            ),
        },
    decreases eqs_vars(equations@).len(), eqs_size(equations@), 1int,
{
    let picked = pick_equation(&equations);
    match picked {
        None => Ok(substitutions),
        Some((t1, t2)) => {
            let ghost eqs0 = equations@;
            let remaining = remove_equation(equations, (t1.clone(), t2.clone()));
            proof {
                assert(remaining@ == eqs0.drop_last());
                lemma_unify_step(eqs0);
            }
            if t1 == t2 {
                unify(remaining, substitutions)
            } else {
                match (t1, t2) {
                    (Type::Variable { name }, other) => {
                        proof {
                            assert(pair_vars(eqs0.last()) =~= Set::empty().insert(name@).union(
                                ty_vars(other@),
                            ));
                            lemma_unify_var_step(eqs0, name@, other@);
                        }
                        unify2(remaining, substitutions, name, other)
                    },
                    (other, Type::Variable { name }) => {
                        proof {
                            assert(pair_vars(eqs0.last()) =~= Set::empty().insert(name@).union(
                                ty_vars(other@),
                            ));
                            lemma_unify_var_step(eqs0, name@, other@);
                        }
                        unify2(remaining, substitutions, name, other)
                    },
                    (
                        Type::Function { domain: domain1, range: range1 },
                        Type::Function { domain: domain2, range: range2 },
                    ) => {
                        proof {
                            lemma_unify_fn_step(eqs0, domain1@, range1@, domain2@, range2@);
                        }
                        let new_equations = add_equation(remaining, *domain1, *domain2);
                        let new_equations = add_equation(new_equations, *range1, *range2);
                        unify(new_equations, substitutions)
                    },
                    (Type::List(inner1), Type::List(inner2)) => {
                        proof {
                            lemma_unify_list_step(eqs0, inner1@, inner2@);
                        }
                        let new_equations = add_equation(remaining, *inner1, *inner2);
                        unify(new_equations, substitutions)
                    },
                    _ => Err(TypeError::UnificationImpossible),
                }
            }
        },
    }
}

/// Eliminates `variable_name` in favour of `t`, after the occurs check.
fn unify2(equations: Equations, substitutions: Equations, variable_name: String, t: Type) -> (r:
    Result<Equations, TypeError>)
    ensures
        match r {
            Ok(s) => unify2_spec(equations@, substitutions@, variable_name@, t@) == Ok::<
                Seq<(Ty, Ty)>,
                TypeError,
            >(s@),
            Err(e) => unify2_spec(equations@, substitutions@, variable_name@, t@) == Err::<
                Seq<(Ty, Ty)>,
                TypeError,
            >(e),
        },
    decreases
            eqs_vars(equations@).union(ty_vars(t@)).insert(variable_name@).len(),
            eqs_size(equations@) + ty_size(t@) + 1,
            0int,
{
    if occurs_check(&variable_name, &t) {
        return Err(TypeError::CircularReference);
    }
    proof {
        lemma_unify2_step(equations@, substitutions@, variable_name@, t@);
    }
    let substituted_equations = apply_substitution_to_all(
        equations,
        variable_name.clone(),
        t.clone(),
    );
    let substituted_substitutions = apply_substitution_to_all(
        substitutions,
        variable_name.clone(),
        t.clone(),
    );
    let result_substitutions = add_equation(
        substituted_substitutions,
        Type::Variable { name: variable_name },
        t,
    );
    unify(substituted_equations, result_substitutions)
}

/// A store in solved form: every left side is a type variable, no left
/// variable occurs in any right side (so no equation has equal sides and
/// the occurs check holds of each), and no variable is resolved twice.
pub open spec fn solved_form(subs: Seq<(Ty, Ty)>) -> bool {
    &&& (forall|i: int| #![auto] 0 <= i < subs.len() ==> subs[i].0 is Variable)
    &&& (forall|i: int, j: int|
        #![auto]
        0 <= i < subs.len() && 0 <= j < subs.len() ==> !ty_vars(subs[j].1).contains(
            subs[i].0->Variable_0,
        ))
    &&& (forall|i: int, j: int|
        #![auto]
        0 <= i < subs.len() && 0 <= j < subs.len() && i != j ==> subs[i].0 != subs[j].0)
}

/// The invariant unification maintains: the substitution built so far is
/// solved, and its resolved variables are gone from the pending equations.
spec fn unify_inv(eqs: Seq<(Ty, Ty)>, subs: Seq<(Ty, Ty)>) -> bool {
    &&& solved_form(subs)
    &&& (forall|i: int|
        #![auto]
        0 <= i < subs.len() ==> !eqs_vars(eqs).contains(subs[i].0->Variable_0))
}

/// Unification preserves its invariant and hands back a solved store.
proof fn lemma_unify_preserves(eqs: Seq<(Ty, Ty)>, subs: Seq<(Ty, Ty)>)
    requires
        unify_inv(eqs, subs),
    ensures
        unify_spec(eqs, subs) matches Ok(s) ==> solved_form(s),
    decreases eqs_vars(eqs).len(), eqs_size(eqs), 1int,
{
    if eqs.len() == 0 {
    } else {
        let t1 = eqs.last().0;
        let t2 = eqs.last().1;
        let remaining = eqs.drop_last();
        lemma_unify_step(eqs);
        lemma_eqs_vars_index(eqs, eqs.len() - 1);
        if t1 == t2 {
            assert(unify_inv(remaining, subs));
            lemma_unify_preserves(remaining, subs);
        } else {
            match (t1, t2) {
                (Ty::Variable(name), other) => {
                    assert(pair_vars(eqs.last()) =~= Set::empty().insert(name).union(
                        ty_vars(other),
                    ));
                    lemma_unify_var_step(eqs, name, other);
                    lemma_unify2_preserves(remaining, subs, name, other, eqs);
                },
                (other, Ty::Variable(name)) => {
                    assert(pair_vars(eqs.last()) =~= Set::empty().insert(name).union(
                        ty_vars(other),
                    ));
                    lemma_unify_var_step(eqs, name, other);
                    lemma_unify2_preserves(remaining, subs, name, other, eqs);
                },
                (Ty::Function(domain1, range1), Ty::Function(domain2, range2)) => {
                    lemma_unify_fn_step(eqs, *domain1, *range1, *domain2, *range2);
                    let one = add_eq_spec(remaining, (*domain1, *domain2));
                    let two = add_eq_spec(one, (*range1, *range2));
                    lemma_add_eq(remaining, (*domain1, *domain2));
                    lemma_add_eq(one, (*range1, *range2));
                    assert(eqs_vars(two).subset_of(eqs_vars(eqs)));
                    assert(unify_inv(two, subs));
                    lemma_unify_preserves(two, subs);
                },
                (Ty::List(inner1), Ty::List(inner2)) => {
                    lemma_unify_list_step(eqs, *inner1, *inner2);
                    let one = add_eq_spec(remaining, (*inner1, *inner2));
                    lemma_add_eq(remaining, (*inner1, *inner2));
                    assert(eqs_vars(one).subset_of(eqs_vars(eqs)));
                    assert(unify_inv(one, subs));
                    lemma_unify_preserves(one, subs);
                },
                _ => {},
            }
        }
    }
}

/// Variable elimination preserves the invariant: the eliminated variable
/// joins the substitution and disappears from everything else.
proof fn lemma_unify2_preserves(
    eqs: Seq<(Ty, Ty)>,
    subs: Seq<(Ty, Ty)>,
    name: Seq<char>,
    t: Ty,
    whole: Seq<(Ty, Ty)>,
)
    requires
        whole.len() > 0,
        eqs == whole.drop_last(),
        pair_vars(whole.last()) == Set::empty().insert(name).union(ty_vars(t)),
        unify_inv(whole, subs),
    ensures
        unify2_spec(eqs, subs, name, t) matches Ok(s) ==> solved_form(s),
    decreases eqs_vars(eqs).union(ty_vars(t)).insert(name).len(), eqs_size(eqs) + ty_size(t) + 1,
        0int,
{
    if !ty_vars(t).contains(name) {
        lemma_unify2_step(eqs, subs, name, t);
        lemma_eqs_drop_last(whole);
        let new_eqs = subst_all_spec(eqs, name, t);
        let moved = subst_all_spec(subs, name, t);
        let new_subs = add_eq_spec(moved, (Ty::Variable(name), t));
        lemma_subst_all_vars(eqs, name, t);
        lemma_eqs_vars_index(whole, whole.len() - 1);
        assert(ty_vars(t).subset_of(eqs_vars(whole)));
        assert(eqs_vars(eqs).subset_of(eqs_vars(whole)));

        // The old lefts are untouched by the substitution and stay off
        // every right side; the new pair's left is the fresh variable.
        assert(moved.len() == subs.len());
        assert forall|i: int| 0 <= i < subs.len() implies moved[i].0 == subs[i].0 && moved[i].1
            == ty_subst(subs[i].1, name, t) && subs[i].0->Variable_0 != name by {
            assert(moved[i] == (ty_subst(subs[i].0, name, t), ty_subst(subs[i].1, name, t)));
            assert(eqs_vars(whole).contains(name));
            assert(!eqs_vars(whole).contains(subs[i].0->Variable_0));
            assert(ty_vars(subs[i].0).contains(subs[i].0->Variable_0));
        }
        assert forall|i: int, j: int|
            0 <= i < moved.len() && 0 <= j < moved.len() implies !ty_vars(moved[j].1).contains(
            #[trigger] moved[i].0->Variable_0,
        ) by {
            lemma_ty_subst_vars(subs[j].1, name, t);
            assert(!eqs_vars(whole).contains(subs[i].0->Variable_0));
            assert(!ty_vars(t).contains(subs[i].0->Variable_0));
        }
        assert forall|j: int| 0 <= j < moved.len() implies !ty_vars(#[trigger] moved[j].1).contains(
            name,
        ) by {
            lemma_ty_subst_vars(subs[j].1, name, t);
        }
        if !moved.contains((Ty::Variable(name), t)) {
            assert(new_subs == moved.push((Ty::Variable(name), t)));
        } else {
            let w = choose|w: int|
                0 <= w < moved.len() && moved[w] == (Ty::Variable(name), t);
            assert(moved[w].0->Variable_0 == name);
            assert(false);
        }
        assert(solved_form(new_subs));
        assert forall|i: int| 0 <= i < new_subs.len() implies !eqs_vars(new_eqs).contains(
            #[trigger] new_subs[i].0->Variable_0,
        ) by {
            assert(eqs_vars(new_eqs).subset_of(eqs_vars(eqs).remove(name).union(ty_vars(t))));
            if i < moved.len() {
                assert(!eqs_vars(whole).contains(new_subs[i].0->Variable_0));
            } else {
                assert(new_subs[i].0->Variable_0 == name);
            }
        }
        assert(unify_inv(new_eqs, new_subs));
        lemma_unify_preserves(new_eqs, new_subs);
    }
}

/// The law of the solved store: a successful unification started from an
/// empty substitution returns a store in solved form, so no equation has
/// equal or incompatible sides and no resolved variable reappears
/// anywhere, its own resolution included.
pub proof fn lemma_unify_solved_form(eqs: Seq<(Ty, Ty)>)
    ensures
        unify_spec(eqs, Seq::empty()) matches Ok(s) ==> solved_form(s),
{
    assert(eqs_vars(Seq::<(Ty, Ty)>::empty()) == Set::<Seq<char>>::empty());
    lemma_unify_preserves(eqs, Seq::empty());
}

} // verus!
