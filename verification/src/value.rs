//! Values produced by the evaluator. Closures hold a snapshot of the
//! evaluation environment at creation time, which gives lexical scoping.

use vstd::prelude::*;

use crate::ast::{Expr, Expression};
use crate::environment::Environment;

verus! {

/// Mathematical model of a value: a captured environment is a finite map
/// from variable name to value model.
pub ghost enum Val {
    Integer(int),
    Bool(bool),
    Closure { environment: Map<Seq<char>, Val>, parameter: Seq<char>, body: Expr },
    RecClosure {
        environment: Map<Seq<char>, Val>,
        call_name: Seq<char>,
        parameter: Seq<char>,
        body: Expr,
    },
    Nil,
    Cons { car: Box<Val>, cdr: Box<Val> },
}

/// A value of the object language.
#[derive(Debug)]
pub enum Value {
    Integer(isize),
    Bool(bool),
    Closure { environment: Environment, parameter: String, body: Expression },
    RecClosure {
        environment: Environment,
        call_name: String,
        parameter: String,
        body: Expression,
    },
    Nil,
    Cons { car: Box<Value>, cdr: Box<Value> },
}

/// The model of a value.
pub open spec fn val_view(v: Value) -> Val
    decreases v,
{
    match v {
        Value::Integer(n) => Val::Integer(n as int),
        Value::Bool(b) => Val::Bool(b),
        Value::Closure { environment, parameter, body } => Val::Closure {
            environment: binding_map(environment.variables@),
            parameter: parameter@,
            body: body@,
        },
        Value::RecClosure { environment, call_name, parameter, body } => Val::RecClosure {
            environment: binding_map(environment.variables@),
            call_name: call_name@,
            parameter: parameter@,
            body: body@,
        },
        Value::Nil => Val::Nil,
        Value::Cons { car, cdr } => Val::Cons {
            car: Box::new(val_view(*car)),
            cdr: Box::new(val_view(*cdr)),
        },
    }
}

/// The map denoted by an association list of bindings, later entries
/// shadowing earlier ones.
pub open spec fn binding_map(s: Seq<(String, Value)>) -> Map<Seq<char>, Val>
    decreases s,
{
    if s.len() == 0 {
        Map::empty()
    } else {
        binding_map(s.drop_last()).insert(s.last().0@, val_view(s.last().1))
    }
}

impl View for Value {
    type V = Val;

    open spec fn view(&self) -> Val {
        val_view(*self)
    }
}

/// Clones the first `n` bindings of `v`, entry by entry.
pub(crate) fn clone_bindings(v: &Vec<(String, Value)>, n: usize) -> (r: Vec<(String, Value)>)
    requires
        n <= v@.len(),
    ensures
        r@.len() == n,
        forall|j: int| 0 <= j < n ==> r@[j].0@ == v@[j].0@ && r@[j].1@ == v@[j].1@,
    decreases v@.subrange(0, n as int),
{
    if n == 0 {
        Vec::new()
    } else {
        proof {
            assert(v@.subrange(0, n as int).subrange(0, n as int - 1) =~= v@.subrange(
                0,
                n as int - 1,
            ));
            assert(v@.subrange(0, n as int)[n as int - 1] == v@[n as int - 1]);
        }
        let mut r = clone_bindings(v, n - 1);
        let name = v[n - 1].0.clone();
        let value = v[n - 1].1.clone();
        r.push((name, value));
        r
    }
}

impl Clone for Value {
    /// A clone has the same model as the original.
    fn clone(&self) -> (r: Self)
        ensures
            r@ == self@,
        decreases self,
    {
        match self {
            Value::Integer(n) => Value::Integer(*n),
            Value::Bool(b) => Value::Bool(*b),
            Value::Closure { environment, parameter, body } => {
                proof {
                    assert(environment.variables@.subrange(
                        0,
                        environment.variables@.len() as int,
                    ) =~= environment.variables@);
                }
                let variables = clone_bindings(&environment.variables, environment.variables.len());
                proof {
                    crate::environment::lemma_env_map_congruence(
                        variables@,
                        environment.variables@,
                    );
                }
                Value::Closure {
                    environment: Environment { variables },
                    parameter: parameter.clone(),
                    body: body.clone(),
                }
            },
            Value::RecClosure { environment, call_name, parameter, body } => {
                proof {
                    assert(environment.variables@.subrange(
                        0,
                        environment.variables@.len() as int,
                    ) =~= environment.variables@);
                }
                let variables = clone_bindings(&environment.variables, environment.variables.len());
                proof {
                    crate::environment::lemma_env_map_congruence(
                        variables@,
                        environment.variables@,
                    );
                }
                Value::RecClosure {
                    environment: Environment { variables },
                    call_name: call_name.clone(),
                    parameter: parameter.clone(),
                    body: body.clone(),
                }
            },
            Value::Nil => Value::Nil,
            Value::Cons { car, cdr } => Value::Cons {
                car: Box::new((**car).clone()),
                cdr: Box::new((**cdr).clone()),
            },
        }
    }
}

} // verus!
