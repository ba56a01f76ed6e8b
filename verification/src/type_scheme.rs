//! Type schemes: a type together with a set of quantified variable names,
//! representing a polymorphic type. A monomorphic scheme has an empty
//! quantifier list.

use vstd::prelude::*;

use crate::symbol::{advance, symbol_name, SymbolGenerator};
use crate::types::{names_view, ty_subst, Ty, Type};

verus! {

/// Mathematical model of a type scheme.
pub ghost struct Scheme {
    pub variables: Seq<Seq<char>>,
    pub base_type: Ty,
}

/// A polymorphic wrapper around a type, quantifying the listed variable
/// names.
#[derive(Debug)]
pub struct TypeScheme {
    pub variables: Vec<String>,
    pub base_type: Type,
}

impl View for TypeScheme {
    type V = Scheme;

    open spec fn view(&self) -> Scheme {
        Scheme { variables: names_view(self.variables@), base_type: self.base_type@ }
    }
}

impl Clone for TypeScheme {
    /// A clone has the same model as the original.
    fn clone(&self) -> (r: Self)
        ensures
            r@ == self@,
    {
        let mut variables: Vec<String> = Vec::new();
        let n = self.variables.len();
        let mut i: usize = 0;
        while i < n
            invariant
                n == self.variables@.len(),
                i <= n,
                variables@.len() == i,
                forall|j: int| 0 <= j < i ==> variables@[j]@ == self.variables@[j]@,
            decreases n - i,
        {
            variables.push(self.variables[i].clone());
            i += 1;
        }
        let r = TypeScheme { variables, base_type: self.base_type.clone() };
        proof {
            assert(names_view(r.variables@) =~= names_view(self.variables@));
        }
        r
    }
}

/// Instantiation of the remaining quantified `variables` in `t`, each
/// replaced by the next generated symbol, counting from `k`.
pub open spec fn instantiate_from(variables: Seq<Seq<char>>, t: Ty, k: nat) -> Ty
    decreases variables.len(),
{
    if variables.len() == 0 {
        t
    } else {
        instantiate_from(
            variables.drop_first(),
            ty_subst(t, variables.first(), Ty::Variable(symbol_name(k))),
            advance(k, 1),
        )
    }
}

impl TypeScheme {
    /// A scheme that quantifies nothing.
    pub fn new_monomorphic_type_scheme(t: Type) -> (r: Self)
        ensures
            r@.variables == Seq::<Seq<char>>::empty(),
            r@.base_type == t@,
    {
        let r = TypeScheme { variables: Vec::new(), base_type: t };
        proof {
            assert(names_view(r.variables@) =~= Seq::<Seq<char>>::empty());
        }
        r
    }

    /// A scheme quantifying the given variable names over `base_type`.
    pub fn new_polymorphic_type_scheme(variable_names: Vec<String>, base_type: Type) -> (r: Self)
        ensures
            r@.variables == names_view(variable_names@),
            r@.base_type == base_type@,
    {
        TypeScheme { variables: variable_names, base_type }
    }

    /// Substitutes every quantified variable in the inner type with a
    /// newly generated type variable and returns the resulting type.
    ///
    /// The replacements are fresh only under the discipline the inferencer
    /// keeps: every quantified name was itself drawn earlier from the same
    /// ever-advancing generator, so no quantified name can equal a name
    /// generated now or later. A generator rewound below the draws that
    /// produced the quantified names would reissue them.
    pub fn instantiate(self, generator: &mut SymbolGenerator) -> (r: Type)
        ensures
            r@ == instantiate_from(self@.variables, self@.base_type, old(generator).next as nat),
            final(generator).next as nat == advance(
                old(generator).next as nat,
                self@.variables.len(),
            ),
    {
        let TypeScheme { variables, base_type } = self;
        let mut current = base_type;
        let n = variables.len();
        proof {
            assert(names_view(variables@).subrange(0, n as int) =~= names_view(variables@));
        }
        let mut i: usize = 0;
        while i < n
            invariant
                n == variables@.len(),
                i <= n,
                instantiate_from(
                    names_view(variables@).subrange(i as int, n as int),
                    current@,
                    generator.next as nat,
                ) == instantiate_from(
                    names_view(variables@),
                    base_type@,
                    old(generator).next as nat,
                ),
                generator.next as nat == advance(old(generator).next as nat, i as nat),
            decreases n - i,
        {
            let ghost before = names_view(variables@).subrange(i as int, n as int);
            let fresh_name = generator.fresh();
            let variable = variables[i].clone();
            current = current.apply_substitution_for_type(
                variable,
                Type::Variable { name: fresh_name },
            );
            i += 1;
            proof {
                assert(before.drop_first() =~= names_view(variables@).subrange(i as int, n as int));
                assert(before.first() == variables@[i - 1]@);
            }
        }
        proof {
            assert(names_view(variables@).subrange(n as int, n as int)
                =~= Seq::<Seq<char>>::empty());
        }
        current
    }
}

} // verus!
