//! The type inferencer: Hindley-Milner style constraint generation with
//! polymorphic generalization at `let` and `let rec`, driven to a
//! principal type by unification and normalization.
//!
//! Every rule is given exactly by [`infer_spec`]; the executable functions
//! return precisely what it says, for the given state of the symbol
//! generator. An application whose function type is still a variable gets
//! two fresh variables and a constraint, and a `cons` constrains its tail
//! to the list of its head's type, so both work at polymorphic types.
//! A recursive binding that would need an infinite type is rejected by
//! the occurs check with a *circular reference*.

use vstd::prelude::*;

use crate::ast::{Expr, Expression};
use crate::errors::TypeError;
use crate::symbol::{advance, symbol_name, SymbolGenerator};
use crate::type_environment::{map_free_set, normalize_spec, unbound_spec, TyEnv, TypeEnvironment};
use crate::type_scheme::{instantiate_from, Scheme, TypeScheme};
use crate::types::{free_type_variables, ty_free_seq, ty_rename, BaseType, Ty, Type};
use crate::unification::{add_eq_spec, unify_spec};

verus! {

/// What successful inference yields: the environment enriched with new
/// bindings and equations, the inferred type, and the symbol counter after
/// the fresh draws.
pub ghost struct InferOk {
    pub env: TyEnv,
    pub ty: Ty,
    pub next: nat,
}

/// `env` with one more equation.
pub open spec fn add_env_eq(env: TyEnv, p: (Ty, Ty)) -> TyEnv {
    TyEnv { bindings: env.bindings, equations: add_eq_spec(env.equations, p) }
}

/// `env` with `name` bound to the monomorphic scheme of `t`.
pub open spec fn bind_mono(env: TyEnv, name: Seq<char>, t: Ty) -> TyEnv {
    TyEnv {
        bindings: env.bindings.insert(
            name,
            Scheme { variables: Seq::empty(), base_type: t },
        ),
        equations: env.equations,
    }
}

/// Constraint generation, one rule per expression form, starting with the
/// symbol counter at `k`.
pub open spec fn infer_spec(env: TyEnv, e: Expr, k: nat) -> Result<InferOk, TypeError>
    decreases e,
{
    match e {
        Expr::Integer(_) => Ok(InferOk { env, ty: Ty::Base(BaseType::Integer), next: k }),
        Expr::Bool(_) => Ok(InferOk { env, ty: Ty::Base(BaseType::Bool), next: k }),
        Expr::Variable(x) => if env.bindings.contains_key(x) {
            Ok(
                InferOk {
                    env,
                    ty: instantiate_from(
                        env.bindings[x].variables,
                        env.bindings[x].base_type,
                        k,
                    ),
                    next: advance(k, env.bindings[x].variables.len()),
                },
            )
        } else {
            Err(TypeError::UndefinedVariable)
        },
        Expr::Plus(e1, e2) => match infer_spec(env, *e1, k) {
            Ok(io1) => match infer_spec(io1.env, *e2, io1.next) {
                Ok(io2) => Ok(
                    InferOk {
                        env: add_env_eq(io2.env, (io1.ty, io2.ty)),
                        ty: io1.ty,
                        next: io2.next,
                    },
                ),
                Err(e) => Err(e),
            },
            Err(e) => Err(e),
        },
        Expr::Minus(e1, e2) => match infer_spec(env, *e1, k) {
            Ok(io1) => match infer_spec(io1.env, *e2, io1.next) {
                Ok(io2) => Ok(
                    InferOk {
                        env: add_env_eq(io2.env, (io1.ty, io2.ty)),
                        ty: io1.ty,
                        next: io2.next,
                    },
                ),
                Err(e) => Err(e),
            },
            Err(e) => Err(e),
        },
        Expr::Times(e1, e2) => match infer_spec(env, *e1, k) {
            Ok(io1) => match infer_spec(io1.env, *e2, io1.next) {
                Ok(io2) => Ok(
                    InferOk {
                        env: add_env_eq(io2.env, (io1.ty, io2.ty)),
                        ty: io1.ty,
                        next: io2.next,
                    },
                ),
                Err(e) => Err(e),
            },
            Err(e) => Err(e),
        },
        Expr::LessThan(e1, e2) => match infer_spec(env, *e1, k) {
            Ok(io1) => match infer_spec(io1.env, *e2, io1.next) {
                Ok(io2) => Ok(
                    InferOk {
                        env: add_env_eq(io2.env, (io1.ty, io2.ty)),
                        ty: Ty::Base(BaseType::Bool),
                        next: io2.next,
                    },
                ),
                Err(e) => Err(e),
            },
            Err(e) => Err(e),
        },
        Expr::If { predicate, consequent, alternative } => match infer_spec(env, *predicate, k) {
            Ok(p_io) => {
                let env1 = add_env_eq(p_io.env, (p_io.ty, Ty::Base(BaseType::Bool)));
                match infer_spec(env1, *consequent, p_io.next) {
                    Ok(c_io) => match infer_spec(c_io.env, *alternative, c_io.next) {
                        Ok(a_io) => Ok(
                            InferOk {
                                env: add_env_eq(a_io.env, (c_io.ty, a_io.ty)),
                                ty: c_io.ty,
                                next: a_io.next,
                            },
                        ),
                        Err(e) => Err(e),
                    },
                    Err(e) => Err(e),
                }
            },
            Err(e) => Err(e),
        },
        Expr::Let { variable, bound, body } => match infer_spec(env, *bound, k) {
            Ok(b_io) => match unify_spec(b_io.env.equations, Seq::empty()) {
                Ok(solved) => match normalize_spec(solved, Seq::empty(), b_io.ty) {
                    Ok(actual) => {
                        let unbound = unbound_spec(
                            ty_free_seq(actual),
                            map_free_set(env.bindings),
                        );
                        let env2 = TyEnv {
                            bindings: b_io.env.bindings.insert(
                                variable,
                                Scheme { variables: unbound, base_type: actual },
                            ),
                            equations: b_io.env.equations,
                        };
                        infer_spec(env2, *body, b_io.next)
                    },
                    Err(e) => Err(e),
                },
                Err(e) => Err(e),
            },
            Err(e) => Err(e),
        },
        Expr::Fun { parameter, body } => {
            let alpha = symbol_name(k);
            let env1 = bind_mono(env, parameter, Ty::Variable(alpha));
            match infer_spec(env1, *body, advance(k, 1)) {
                Ok(b_io) => Ok(
                    InferOk {
                        env: b_io.env,
                        ty: Ty::Function(
                            Box::new(Ty::Variable(alpha)),
                            Box::new(ty_rename(b_io.ty, parameter, alpha)),
                        ),
                        next: b_io.next,
                    },
                ),
                Err(e) => Err(e),
            }
        },
        Expr::App { function, argument } => match infer_spec(env, *function, k) {
            Ok(f_io) => match f_io.ty {
                Ty::Function(domain, range) => match infer_spec(f_io.env, *argument, f_io.next) {
                    Ok(a_io) => Ok(
                        InferOk {
                            env: add_env_eq(a_io.env, (*domain, a_io.ty)),
                            ty: *range,
                            next: a_io.next,
                        },
                    ),
                    Err(e) => Err(e),
                },
                Ty::Variable(_) => {
                    let u = Ty::Variable(symbol_name(f_io.next));
                    let v = Ty::Variable(symbol_name(advance(f_io.next, 1)));
                    let env1 = add_env_eq(
                        f_io.env,
                        (f_io.ty, Ty::Function(Box::new(u), Box::new(v))),
                    );
                    match infer_spec(env1, *argument, advance(advance(f_io.next, 1), 1)) {
                        Ok(a_io) => Ok(
                            InferOk {
                                env: add_env_eq(a_io.env, (u, a_io.ty)),
                                ty: v,
                                next: a_io.next,
                            },
                        ),
                        Err(e) => Err(e),
                    }
                },
                _ => Err(TypeError::InvalidType),
            },
            Err(e) => Err(e),
        },
        Expr::LetRec { variable, bound_function, body } => {
            let alpha = Ty::Variable(symbol_name(k));
            let beta = Ty::Variable(symbol_name(advance(k, 1)));
            let k1 = advance(advance(k, 1), 1);
            let tentative = Ty::Function(Box::new(alpha), Box::new(beta));
            let temp_env = bind_mono(env, variable, tentative);
            match infer_spec(temp_env, *bound_function, k1) {
                Ok(b_io) => match b_io.ty {
                    Ty::Function(domain, range) => {
                        let env_c = add_env_eq(
                            add_env_eq(b_io.env, (alpha, *domain)),
                            (beta, *range),
                        );
                        match unify_spec(env_c.equations, Seq::empty()) {
                            Ok(solved) => match normalize_spec(solved, Seq::empty(), tentative) {
                                Ok(actual) => {
                                    let unbound = unbound_spec(
                                        ty_free_seq(actual),
                                        map_free_set(env.bindings),
                                    );
                                    let env_d = TyEnv {
                                        bindings: env_c.bindings.insert(
                                            variable,
                                            Scheme { variables: unbound, base_type: actual },
                                        ),
                                        equations: env_c.equations,
                                    };
                                    infer_spec(env_d, *body, b_io.next)
                                },
                                Err(e) => Err(e),
                            },
                            Err(e) => Err(e),
                        }
                    },
                    _ => Err(TypeError::InvalidType),
                },
                Err(e) => Err(e),
            }
        },
        Expr::Nil => Ok(
            InferOk {
                env,
                ty: Ty::List(Box::new(Ty::Variable(symbol_name(k)))),
                next: advance(k, 1),
            },
        ),
        Expr::Cons { car, cdr } => match infer_spec(env, *car, k) {
            Ok(c_io) => match infer_spec(c_io.env, *cdr, c_io.next) {
                Ok(d_io) => Ok(
                    InferOk {
                        env: add_env_eq(d_io.env, (d_io.ty, Ty::List(Box::new(c_io.ty)))),
                        ty: d_io.ty,
                        next: d_io.next,
                    },
                ),
                Err(e) => Err(e),
            },
            Err(e) => Err(e),
        },
        Expr::Match { scrutinee, nil_case, car_name, cdr_name, cons_case } => match infer_spec(
            env,
            *scrutinee,
            k,
        ) {
            Ok(s_io) => {
                let scrutinee_step = match s_io.ty {
                    Ty::List(element) => Some((s_io.env, *element, s_io.next)),
                    Ty::Variable(_) => {
                        let element = Ty::Variable(symbol_name(s_io.next));
                        Some(
                            (
                                add_env_eq(s_io.env, (s_io.ty, Ty::List(Box::new(element)))),
                                element,
                                advance(s_io.next, 1),
                            ),
                        )
                    },
                    _ => None,
                };
                match scrutinee_step {
                    None => Err(TypeError::InvalidType),
                    Some((env1, element, k1)) => match infer_spec(env1, *nil_case, k1) {
                        Ok(n_io) => {
                            let env3 = TyEnv {
                                bindings: n_io.env.bindings.insert(
                                    car_name,
                                    Scheme { variables: Seq::empty(), base_type: element },
                                ).insert(
                                    cdr_name,
                                    Scheme {
                                        variables: Seq::empty(),
                                        base_type: Ty::List(Box::new(element)),
                                    },
                                ),
                                equations: n_io.env.equations,
                            };
                            match infer_spec(env3, *cons_case, n_io.next) {
                                Ok(c_io) => Ok(
                                    InferOk {
                                        env: add_env_eq(c_io.env, (n_io.ty, c_io.ty)),
                                        ty: n_io.ty,
                                        next: c_io.next,
                                    },
                                ),
                                Err(e) => Err(e),
                            }
                        },
                        Err(e) => Err(e),
                    },
                }
            },
            Err(e) => Err(e),
        },
    }
}

/// Inference after solving: the collected equations are unified and the
/// inferred type is normalized against the solved substitution; the
/// returned environment keeps its bindings and carries the substitution as
/// its store.
pub open spec fn type_inference_spec(env: TyEnv, e: Expr, k: nat) -> Result<InferOk, TypeError> {
    match infer_spec(env, e, k) {
        Ok(io) => match unify_spec(io.env.equations, Seq::empty()) {
            Ok(solved) => match normalize_spec(solved, Seq::empty(), io.ty) {
                Ok(t) => Ok(
                    InferOk {
                        env: TyEnv { bindings: io.env.bindings, equations: solved },
                        ty: t,
                        next: io.next,
                    },
                ),
                Err(e) => Err(e),
            },
            Err(e) => Err(e),
        },
        Err(e) => Err(e),
    }
}

/// Infers a principal type for `expression`: collects constraints, unifies
/// them and normalizes the result. The returned environment carries the
/// new bindings and the solved substitution.
pub fn type_inference(
    type_environment: TypeEnvironment,
    expression: Expression,
    generator: &mut SymbolGenerator,
) -> (r: Result<(TypeEnvironment, Type), TypeError>)
    ensures
        match r {
            Ok((env2, t)) => type_inference_spec(
                type_environment@,
                expression@,
                old(generator).next as nat,
            ) == Ok::<InferOk, TypeError>(
                InferOk { env: env2@, ty: t@, next: final(generator).next as nat },
            ),
            Err(e) => type_inference_spec(
                type_environment@,
                expression@,
                old(generator).next as nat,
            ) == Err::<InferOk, TypeError>(e),
        },
{
    let (inferred_environment, inferred_type) = infer(type_environment, expression, generator)?;
    let unified_environment = match inferred_environment.unify_equations() {
        Ok(env) => env,
        Err(e) => {
            return Err(e);
        },
    };
    proof {
        assert(crate::type_environment::tys_view(Seq::<Type>::empty()) =~= Seq::<Ty>::empty());
    }
    let normalized_type = match unified_environment.normalize_type(Vec::new(), inferred_type) {
        Ok(t) => t,
        Err(e) => {
            return Err(e);
        },
    };
    Ok((unified_environment, normalized_type))
}

/// One constraint-generation step, dispatching on the expression form.
pub fn infer(
    type_environment: TypeEnvironment,
    expression: Expression,
    generator: &mut SymbolGenerator,
) -> (r: Result<(TypeEnvironment, Type), TypeError>)
    ensures
        match r {
            Ok((env2, t)) => infer_spec(
                type_environment@,
                expression@,
                old(generator).next as nat,
            ) == Ok::<InferOk, TypeError>(
                InferOk { env: env2@, ty: t@, next: final(generator).next as nat },
            ),
            Err(e) => infer_spec(type_environment@, expression@, old(generator).next as nat)
                == Err::<InferOk, TypeError>(e),
        },
    decreases expression@, 1int,
{
    match expression {
        Expression::Integer(n) => infer_integer(type_environment, n),
        Expression::Bool(b) => infer_bool(type_environment, b),
        Expression::Variable(name) => infer_variable(type_environment, name, generator),
        Expression::Plus { expression1, expression2 } => {
            let ghost whole = Expr::Plus(Box::new(expression1@), Box::new(expression2@));
            infer_binary_operation(
                type_environment,
                *expression1,
                *expression2,
                generator,
                Ghost(whole),
            )
        },
        Expression::Minus { expression1, expression2 } => {
            let ghost whole = Expr::Minus(Box::new(expression1@), Box::new(expression2@));
            infer_binary_operation(
                type_environment,
                *expression1,
                *expression2,
                generator,
                Ghost(whole),
            )
        },
        Expression::Times { expression1, expression2 } => {
            let ghost whole = Expr::Times(Box::new(expression1@), Box::new(expression2@));
            infer_binary_operation(
                type_environment,
                *expression1,
                *expression2,
                generator,
                Ghost(whole),
            )
        },
        Expression::LessThan { expression1, expression2 } => {
            let ghost whole = Expr::LessThan(Box::new(expression1@), Box::new(expression2@));
            infer_binary_predicate(
                type_environment,
                *expression1,
                *expression2,
                generator,
                Ghost(whole),
            )
        },
        Expression::If { predicate, consequent, alternative } => {
            let ghost whole = expression@;
            infer_if(
                type_environment,
                *predicate,
                *consequent,
                *alternative,
                generator,
                Ghost(whole),
            )
        },
        Expression::Let { variable, bound, body } => {
            let ghost whole = expression@;
            infer_let(type_environment, variable, *bound, *body, generator, Ghost(whole))
        },
        Expression::Fun { parameter, body } => {
            let ghost whole = expression@;
            infer_fun(type_environment, parameter, *body, generator, Ghost(whole))
        },
        Expression::App { function, argument } => {
            let ghost whole = expression@;
            infer_app(type_environment, *function, *argument, generator, Ghost(whole))
        },
        Expression::LetRec { variable, bound_function, body } => {
            let ghost whole = expression@;
            infer_let_rec(
                type_environment,
                variable,
                *bound_function,
                *body,
                generator,
                Ghost(whole),
            )
        },
        Expression::Nil => infer_nil(type_environment, generator),
        Expression::Cons { car, cdr } => {
            let ghost whole = expression@;
            infer_cons(type_environment, *car, *cdr, generator, Ghost(whole))
        },
        Expression::Match { scrutinee, nil_case, cons_pattern } => {
            let ghost whole = expression@;
            infer_match(
                type_environment,
                *scrutinee,
                *nil_case,
                (cons_pattern.0, cons_pattern.1, *cons_pattern.2),
                generator,
                Ghost(whole),
            )
        },
    }
}

fn infer_integer(type_environment: TypeEnvironment, n: isize) -> (r: Result<
    (TypeEnvironment, Type),
    TypeError,
>)
    ensures
        r matches Ok((env2, t)) && env2@ == type_environment@ && t@ == Ty::Base(BaseType::Integer),
{
    Ok((type_environment, Type::Base(BaseType::Integer)))
}

fn infer_bool(type_environment: TypeEnvironment, b: bool) -> (r: Result<
    (TypeEnvironment, Type),
    TypeError,
>)
    ensures
        r matches Ok((env2, t)) && env2@ == type_environment@ && t@ == Ty::Base(BaseType::Bool),
{
    Ok((type_environment, Type::Base(BaseType::Bool)))
}

fn infer_variable(
    type_environment: TypeEnvironment,
    name: String,
    generator: &mut SymbolGenerator,
) -> (r: Result<(TypeEnvironment, Type), TypeError>)
    ensures
        match r {
            Ok((env2, t)) => infer_spec(
                type_environment@,
                Expr::Variable(name@),
                old(generator).next as nat,
            ) == Ok::<InferOk, TypeError>(
                InferOk { env: env2@, ty: t@, next: final(generator).next as nat },
            ),
            Err(e) => infer_spec(type_environment@, Expr::Variable(name@), old(generator).next as nat)
                == Err::<InferOk, TypeError>(e),
        },
{
    let variable_type = match type_environment.get_variable_type(generator, &name) {
        Ok(t) => t,
        Err(e) => {
            return Err(e);
        },
    };
    Ok((type_environment, variable_type))
}

fn infer_binary_operation(
    type_environment: TypeEnvironment,
    expression1: Expression,
    expression2: Expression,
    generator: &mut SymbolGenerator,
    Ghost(whole): Ghost<Expr>,
) -> (r: Result<(TypeEnvironment, Type), TypeError>)
    requires
        whole == Expr::Plus(Box::new(expression1@), Box::new(expression2@)) || whole == Expr::Minus(
            Box::new(expression1@),
            Box::new(expression2@),
        ) || whole == Expr::Times(Box::new(expression1@), Box::new(expression2@)),
    ensures
        match r {
            Ok((env2, t)) => infer_spec(type_environment@, whole, old(generator).next as nat)
                == Ok::<InferOk, TypeError>(
                InferOk { env: env2@, ty: t@, next: final(generator).next as nat },
            ),
            Err(e) => infer_spec(type_environment@, whole, old(generator).next as nat) == Err::<
                InferOk,
                TypeError,
            >(e),
        },
    decreases whole, 0int,
{
    let (type_environment, expression1_type) = infer(type_environment, expression1, generator)?;
    let (type_environment, expression2_type) = infer(type_environment, expression2, generator)?;

    let type_environment = type_environment.add_equation(
        expression1_type.clone(),
        expression2_type,
    );

    Ok((type_environment, expression1_type))
}

fn infer_binary_predicate(
    type_environment: TypeEnvironment,
    expression1: Expression,
    expression2: Expression,
    generator: &mut SymbolGenerator,
    Ghost(whole): Ghost<Expr>,
) -> (r: Result<(TypeEnvironment, Type), TypeError>)
    requires
        whole == Expr::LessThan(Box::new(expression1@), Box::new(expression2@)),
    ensures
        match r {
            Ok((env2, t)) => infer_spec(type_environment@, whole, old(generator).next as nat)
                == Ok::<InferOk, TypeError>(
                InferOk { env: env2@, ty: t@, next: final(generator).next as nat },
            ),
            Err(e) => infer_spec(type_environment@, whole, old(generator).next as nat) == Err::<
                InferOk,
                TypeError,
            >(e),
        },
    decreases whole, 0int,
{
    let (type_environment, expression1_type) = infer(type_environment, expression1, generator)?;
    let (type_environment, expression2_type) = infer(type_environment, expression2, generator)?;

    let type_environment = type_environment.add_equation(expression1_type, expression2_type);

    Ok((type_environment, Type::Base(BaseType::Bool)))
}

fn infer_if(
    type_environment: TypeEnvironment,
    predicate: Expression,
    consequent: Expression,
    alternative: Expression,
    generator: &mut SymbolGenerator,
    Ghost(whole): Ghost<Expr>,
) -> (r: Result<(TypeEnvironment, Type), TypeError>)
    requires
        whole == (Expr::If {
            predicate: Box::new(predicate@),
            consequent: Box::new(consequent@),
            alternative: Box::new(alternative@),
        }),
    ensures
        match r {
            Ok((env2, t)) => infer_spec(type_environment@, whole, old(generator).next as nat)
                == Ok::<InferOk, TypeError>(
                InferOk { env: env2@, ty: t@, next: final(generator).next as nat },
            ),
            Err(e) => infer_spec(type_environment@, whole, old(generator).next as nat) == Err::<
                InferOk,
                TypeError,
            >(e),
        },
    decreases whole, 0int,
{
    let (type_environment, predicate_type) = infer(type_environment, predicate, generator)?;
    let type_environment = type_environment.add_equation(
        predicate_type,
        Type::Base(BaseType::Bool),
    );

    let (type_environment, consequent_type) = infer(type_environment, consequent, generator)?;
    let (type_environment, alternative_type) = infer(type_environment, alternative, generator)?;

    let type_environment = type_environment.add_equation(
        consequent_type.clone(),
        alternative_type,
    );

    Ok((type_environment, consequent_type))
}

fn infer_let(
    type_environment: TypeEnvironment,
    variable: String,
    bound: Expression,
    body: Expression,
    generator: &mut SymbolGenerator,
    Ghost(whole): Ghost<Expr>,
) -> (r: Result<(TypeEnvironment, Type), TypeError>)
    requires
        whole == (Expr::Let {
            variable: variable@,
            bound: Box::new(bound@),
            body: Box::new(body@),
        }),
    ensures
        match r {
            Ok((env2, t)) => infer_spec(type_environment@, whole, old(generator).next as nat)
                == Ok::<InferOk, TypeError>(
                InferOk { env: env2@, ty: t@, next: final(generator).next as nat },
            ),
            Err(e) => infer_spec(type_environment@, whole, old(generator).next as nat) == Err::<
                InferOk,
                TypeError,
            >(e),
        },
    decreases whole, 0int,
{
    let outer_environment = type_environment.clone();
    let (type_environment, bound_type) = infer(type_environment, bound, generator)?;

    let unified_environment = match type_environment.clone().unify_equations() {
        Ok(env) => env,
        Err(e) => {
            return Err(e);
        },
    };
    proof {
        assert(crate::type_environment::tys_view(Seq::<Type>::empty()) =~= Seq::<Ty>::empty());
    }
    let actual_bound_type = match unified_environment.normalize_type(Vec::new(), bound_type) {
        Ok(t) => t,
        Err(e) => {
            return Err(e);
        },
    };

    let free_variables = outer_environment.get_unbound_variables(
        free_type_variables(actual_bound_type.clone()),
    );

    let type_environment = type_environment.substitute_variable(
        variable,
        TypeScheme::new_polymorphic_type_scheme(free_variables, actual_bound_type),
    );

    infer(type_environment, body, generator)
}

fn infer_fun(
    type_environment: TypeEnvironment,
    parameter: String,
    body: Expression,
    generator: &mut SymbolGenerator,
    Ghost(whole): Ghost<Expr>,
) -> (r: Result<(TypeEnvironment, Type), TypeError>)
    requires
        whole == (Expr::Fun { parameter: parameter@, body: Box::new(body@) }),
    ensures
        match r {
            Ok((env2, t)) => infer_spec(type_environment@, whole, old(generator).next as nat)
                == Ok::<InferOk, TypeError>(
                InferOk { env: env2@, ty: t@, next: final(generator).next as nat },
            ),
            Err(e) => infer_spec(type_environment@, whole, old(generator).next as nat) == Err::<
                InferOk,
                TypeError,
            >(e),
        },
    decreases whole, 0int,
{
    let unique_parameter = generator.fresh();

    let parameter_type = Type::Variable { name: unique_parameter.clone() };

    let type_environment = type_environment.substitute_variable(
        parameter.clone(),
        TypeScheme::new_monomorphic_type_scheme(parameter_type.clone()),
    );

    let (type_environment, body_type) = infer(type_environment, body, generator)?;
    let substituted_body_type = body_type.apply_substitution(parameter, unique_parameter);

    Ok((
        type_environment,
        Type::Function {
            domain: Box::new(parameter_type),
            range: Box::new(substituted_body_type),
        },
    ))
}

fn infer_app(
    type_environment: TypeEnvironment,
    function: Expression,
    argument: Expression,
    generator: &mut SymbolGenerator,
    Ghost(whole): Ghost<Expr>,
) -> (r: Result<(TypeEnvironment, Type), TypeError>)
    requires
        whole == (Expr::App { function: Box::new(function@), argument: Box::new(argument@) }),
    ensures
        match r {
            Ok((env2, t)) => infer_spec(type_environment@, whole, old(generator).next as nat)
                == Ok::<InferOk, TypeError>(
                InferOk { env: env2@, ty: t@, next: final(generator).next as nat },
            ),
            Err(e) => infer_spec(type_environment@, whole, old(generator).next as nat) == Err::<
                InferOk,
                TypeError,
            >(e),
        },
    decreases whole, 0int,
{
    let (type_environment, function_type) = infer(type_environment, function, generator)?;
    match function_type {
        Type::Function { domain, range } => {
            let (type_environment, argument_type) = infer(type_environment, argument, generator)?;
            let type_environment = type_environment.add_equation(*domain, argument_type);
            Ok((type_environment, *range))
        },
        Type::Variable { name } => {
            let ghost k1 = generator.next as nat;
            let function_type = Type::Variable { name };
            let domain = Type::Variable { name: generator.fresh() };
            let range = Type::Variable { name: generator.fresh() };
            proof {
                assert(domain@ == Ty::Variable(symbol_name(k1)));
                assert(range@ == Ty::Variable(symbol_name(advance(k1, 1))));
            }
            let fresh_function_type = Type::Function {
                domain: Box::new(domain.clone()),
                range: Box::new(range.clone()),
            };
            proof {
                assert(fresh_function_type@ == Ty::Function(Box::new(domain@), Box::new(range@)));
            }
            let type_environment = type_environment.add_equation(
                function_type,
                fresh_function_type,
            );
            let (type_environment, argument_type) = infer(type_environment, argument, generator)?;
            let type_environment = type_environment.add_equation(domain, argument_type);
            Ok((type_environment, range))
        },
        _ => Err(TypeError::InvalidType),
    }
}

#[verifier::rlimit(100)]
fn infer_let_rec(
    type_environment: TypeEnvironment,
    variable: String,
    bound_function: Expression,
    body: Expression,
    generator: &mut SymbolGenerator,
    Ghost(whole): Ghost<Expr>,
) -> (r: Result<(TypeEnvironment, Type), TypeError>)
    requires
        whole == (Expr::LetRec {
            variable: variable@,
            bound_function: Box::new(bound_function@),
            body: Box::new(body@),
        }),
    ensures
        match r {
            Ok((env2, t)) => infer_spec(type_environment@, whole, old(generator).next as nat)
                == Ok::<InferOk, TypeError>(
                InferOk { env: env2@, ty: t@, next: final(generator).next as nat },
            ),
            Err(e) => infer_spec(type_environment@, whole, old(generator).next as nat) == Err::<
                InferOk,
                TypeError,
            >(e),
        },
    decreases whole, 0int,
{
    let ghost k = generator.next as nat;
    let outer_environment = type_environment.clone();
    let recursive_function_argument_type = Type::Variable { name: generator.fresh() };
    let recursive_function_return_type = Type::Variable { name: generator.fresh() };
    proof {
        assert(recursive_function_argument_type@ == Ty::Variable(symbol_name(k)));
        assert(recursive_function_return_type@ == Ty::Variable(symbol_name(advance(k, 1))));
    }
    let recursive_function_type = Type::Function {
        domain: Box::new(recursive_function_argument_type.clone()),
        range: Box::new(recursive_function_return_type.clone()),
    };
    proof {
        assert(recursive_function_type@ == Ty::Function(
            Box::new(Ty::Variable(symbol_name(k))),
            Box::new(Ty::Variable(symbol_name(advance(k, 1)))),
        ));
    }

    let temporal_environment = type_environment.substitute_variable(
        variable.clone(),
        TypeScheme::new_monomorphic_type_scheme(recursive_function_type.clone()),
    );

    let (bound_function_environment, bound_function_type) = infer(
        temporal_environment,
        bound_function,
        generator,
    )?;
    let (domain, range) = match bound_function_type {
        Type::Function { domain, range } => (domain, range),
        _ => {
            return Err(TypeError::InvalidType);
        },
    };

    let type_environment = bound_function_environment.add_equation(
        recursive_function_argument_type,
        *domain,
    ).add_equation(recursive_function_return_type, *range);

    let unified_environment = match type_environment.clone().unify_equations() {
        Ok(env) => env,
        Err(e) => {
            return Err(e);
        },
    };
    proof {
        assert(crate::type_environment::tys_view(Seq::<Type>::empty()) =~= Seq::<Ty>::empty());
    }
    let actual_function_type = match unified_environment.normalize_type(
        Vec::new(),
        recursive_function_type,
    ) {
        Ok(t) => t,
        Err(e) => {
            return Err(e);
        },
    };

    let free_variables = outer_environment.get_unbound_variables(
        free_type_variables(actual_function_type.clone()),
    );

    let type_environment = type_environment.substitute_variable(
        variable,
        TypeScheme::new_polymorphic_type_scheme(free_variables, actual_function_type),
    );

    infer(type_environment, body, generator)
}

fn infer_nil(type_environment: TypeEnvironment, generator: &mut SymbolGenerator) -> (r: Result<
    (TypeEnvironment, Type),
    TypeError,
>)
    ensures
        match r {
            Ok((env2, t)) => infer_spec(type_environment@, Expr::Nil, old(generator).next as nat)
                == Ok::<InferOk, TypeError>(
                InferOk { env: env2@, ty: t@, next: final(generator).next as nat },
            ),
            Err(e) => false,
        },
{
    let ghost k = generator.next as nat;
    let element = Type::Variable { name: generator.fresh() };
    proof {
        assert(element@ == Ty::Variable(symbol_name(k)));
    }
    let result = Type::List(Box::new(element));
    proof {
        assert(result@ == Ty::List(Box::new(Ty::Variable(symbol_name(k)))));
    }
    Ok((type_environment, result))
}

fn infer_cons(
    type_environment: TypeEnvironment,
    car: Expression,
    cdr: Expression,
    generator: &mut SymbolGenerator,
    Ghost(whole): Ghost<Expr>,
) -> (r: Result<(TypeEnvironment, Type), TypeError>)
    requires
        whole == (Expr::Cons { car: Box::new(car@), cdr: Box::new(cdr@) }),
    ensures
        match r {
            Ok((env2, t)) => infer_spec(type_environment@, whole, old(generator).next as nat)
                == Ok::<InferOk, TypeError>(
                InferOk { env: env2@, ty: t@, next: final(generator).next as nat },
            ),
            Err(e) => infer_spec(type_environment@, whole, old(generator).next as nat) == Err::<
                InferOk,
                TypeError,
            >(e),
        },
    decreases whole, 0int,
{
    let (type_environment, car_type) = infer(type_environment, car, generator)?;
    let (type_environment, cdr_type) = infer(type_environment, cdr, generator)?;

    let type_environment = type_environment.add_equation(
        cdr_type.clone(),
        Type::List(Box::new(car_type)),
    );

    Ok((type_environment, cdr_type))
}

#[verifier::rlimit(100)]
fn infer_match(
    type_environment: TypeEnvironment,
    scrutinee: Expression,
    nil_case: Expression,
    cons_pattern: (String, String, Expression),
    generator: &mut SymbolGenerator,
    Ghost(whole): Ghost<Expr>,
) -> (r: Result<(TypeEnvironment, Type), TypeError>)
    requires
        whole == (Expr::Match {
            scrutinee: Box::new(scrutinee@),
            nil_case: Box::new(nil_case@),
            car_name: cons_pattern.0@,
            cdr_name: cons_pattern.1@,
            cons_case: Box::new(cons_pattern.2@),
        }),
    ensures
        match r {
            Ok((env2, t)) => infer_spec(type_environment@, whole, old(generator).next as nat)
                == Ok::<InferOk, TypeError>(
                InferOk { env: env2@, ty: t@, next: final(generator).next as nat },
            ),
            Err(e) => infer_spec(type_environment@, whole, old(generator).next as nat) == Err::<
                InferOk,
                TypeError,
            >(e),
        },
    decreases whole, 0int,
{
    let (car_variable, cdr_variable, cons_case) = cons_pattern;
    let (type_environment, scrutinee_type) = infer(type_environment, scrutinee, generator)?;
    let (type_environment, element_type) = match scrutinee_type {
        Type::List(element) => (type_environment, *element),
        Type::Variable { name } => {
            let ghost k1 = generator.next as nat;
            let scrutinee_type = Type::Variable { name };
            let element = Type::Variable { name: generator.fresh() };
            proof {
                assert(element@ == Ty::Variable(symbol_name(k1)));
            }
            let list_of_element = Type::List(Box::new(element.clone()));
            proof {
                assert(list_of_element@ == Ty::List(Box::new(element@)));
            }
            let type_environment = type_environment.add_equation(
                scrutinee_type,
                list_of_element,
            );
            (type_environment, element)
        },
        _ => {
            return Err(TypeError::InvalidType);
        },
    };

    let (type_environment, nil_case_type) = infer(type_environment, nil_case, generator)?;

    let cdr_type = Type::List(Box::new(element_type.clone()));
    proof {
        assert(cdr_type@ == Ty::List(Box::new(element_type@)));
    }
    let type_environment = type_environment.substitute_variable(
        car_variable,
        TypeScheme::new_monomorphic_type_scheme(element_type),
    ).substitute_variable(
        cdr_variable,
        TypeScheme::new_monomorphic_type_scheme(cdr_type),
    );
    let (type_environment, cons_case_type) = infer(type_environment, cons_case, generator)?;
    let type_environment = type_environment.add_equation(
        nil_case_type.clone(),
        cons_case_type,
    );

    Ok((type_environment, nil_case_type))
}

/// The identity function's principal type: whatever the environment and
/// the state of the symbol generator, inference of `fun x -> x` gives a
/// function type whose domain equals its range.
pub proof fn lemma_identity_principal_type(env: TyEnv, x: Seq<char>, k: nat)
    ensures
        type_inference_spec(
            env,
            Expr::Fun { parameter: x, body: Box::new(Expr::Variable(x)) },
            k,
        ) matches Ok(io) ==> io.ty matches Ty::Function(domain, range) && *domain == *range,
{
    let e = Expr::Fun { parameter: x, body: Box::new(Expr::Variable(x)) };
    let alpha = symbol_name(k);
    let env1 = bind_mono(env, x, Ty::Variable(alpha));
    assert(env1.bindings.contains_key(x));
    assert(env1.bindings[x] == Scheme { variables: Seq::empty(), base_type: Ty::Variable(alpha) });
    assert(instantiate_from(Seq::empty(), Ty::Variable(alpha), advance(k, 1)) == Ty::Variable(
        alpha,
    ));
    assert(infer_spec(env1, Expr::Variable(x), advance(k, 1)) == Ok::<InferOk, TypeError>(
        InferOk { env: env1, ty: Ty::Variable(alpha), next: advance(advance(k, 1), 0) },
    ));
    assert(ty_rename(Ty::Variable(alpha), x, alpha) == Ty::Variable(alpha));
    let fun_ty = Ty::Function(Box::new(Ty::Variable(alpha)), Box::new(Ty::Variable(alpha)));
    assert(infer_spec(env, e, k) == Ok::<InferOk, TypeError>(
        InferOk { env: env1, ty: fun_ty, next: advance(advance(k, 1), 0) },
    ));
    match unify_spec(env1.equations, Seq::empty()) {
        Ok(solved) => {
            match normalize_spec(solved, Seq::empty(), fun_ty) {
                Ok(t) => {
                    assert(t == Ty::Function(
                        Box::new(normalize_spec(solved, Seq::empty(), Ty::Variable(alpha)).unwrap()),
                        Box::new(normalize_spec(solved, Seq::empty(), Ty::Variable(alpha)).unwrap()),
                    ));
                },
                Err(_) => {},
            }
        },
        Err(_) => {},
    }
}

/// A worked typing scenario: under the empty environment, `3 + 5 * 2`
/// infers the principal type `Integer`, whatever the generator state.
pub proof fn lemma_arithmetic_principal_type(k: nat)
    ensures
        type_inference_spec(
            TyEnv { bindings: Map::empty(), equations: Seq::empty() },
            Expr::Plus(
                Box::new(Expr::Integer(3)),
                Box::new(Expr::Times(Box::new(Expr::Integer(5)), Box::new(Expr::Integer(2)))),
            ),
            k,
        ) matches Ok(io) && io.ty == Ty::Base(BaseType::Integer),
{
    let env0 = TyEnv { bindings: Map::empty(), equations: Seq::empty() };
    let int_ty = Ty::Base(BaseType::Integer);
    let int_pair = (int_ty, int_ty);
    let one = Seq::empty().push(int_pair);
    assert(!Seq::<(Ty, Ty)>::empty().contains(int_pair));
    assert(one[0] == int_pair);
    assert(one.contains(int_pair));
    assert(one.drop_last() =~= Seq::<(Ty, Ty)>::empty());
    let env1 = TyEnv { bindings: Map::empty(), equations: one };
    assert(infer_spec(env0, Expr::Integer(5), k) == Ok::<InferOk, TypeError>(
        InferOk { env: env0, ty: int_ty, next: k },
    ));
    assert(infer_spec(env0, Expr::Integer(2), k) == Ok::<InferOk, TypeError>(
        InferOk { env: env0, ty: int_ty, next: k },
    ));
    assert(add_env_eq(env0, int_pair) == env1);
    assert(infer_spec(
        env0,
        Expr::Times(Box::new(Expr::Integer(5)), Box::new(Expr::Integer(2))),
        k,
    ) == Ok::<InferOk, TypeError>(InferOk { env: env1, ty: int_ty, next: k }));
    assert(infer_spec(env0, Expr::Integer(3), k) == Ok::<InferOk, TypeError>(
        InferOk { env: env0, ty: int_ty, next: k },
    ));
    assert(add_env_eq(env1, int_pair) == env1);
    assert(infer_spec(
        env0,
        Expr::Plus(
            Box::new(Expr::Integer(3)),
            Box::new(Expr::Times(Box::new(Expr::Integer(5)), Box::new(Expr::Integer(2)))),
        ),
        k,
    ) == Ok::<InferOk, TypeError>(InferOk { env: env1, ty: int_ty, next: k }));
    assert(unify_spec(Seq::<(Ty, Ty)>::empty(), Seq::<(Ty, Ty)>::empty()) == Ok::<
        Seq<(Ty, Ty)>,
        TypeError,
    >(Seq::empty()));
    assert(unify_spec(one, Seq::empty()) == Ok::<Seq<(Ty, Ty)>, TypeError>(Seq::empty()));
    assert(normalize_spec(Seq::empty(), Seq::empty(), int_ty) == Ok::<Ty, TypeError>(int_ty));
}

/// An ill-typed sum: under the empty environment, `3 + true` fails with
/// *unification impossible*, whatever the generator state.
pub proof fn lemma_ill_typed_sum(k: nat)
    ensures
        type_inference_spec(
            TyEnv { bindings: Map::empty(), equations: Seq::empty() },
            Expr::Plus(Box::new(Expr::Integer(3)), Box::new(Expr::Bool(true))),
            k,
        ) == Err::<InferOk, TypeError>(TypeError::UnificationImpossible),
{
    let env0 = TyEnv { bindings: Map::empty(), equations: Seq::empty() };
    let clash = (Ty::Base(BaseType::Integer), Ty::Base(BaseType::Bool));
    let one = Seq::empty().push(clash);
    assert(!Seq::<(Ty, Ty)>::empty().contains(clash));
    let env1 = add_env_eq(env0, clash);
    assert(env1.equations == one);
    assert(one.last() == clash);
    assert(one.drop_last() =~= Seq::<(Ty, Ty)>::empty());
    assert(infer_spec(env0, Expr::Integer(3), k) == Ok::<InferOk, TypeError>(
        InferOk { env: env0, ty: Ty::Base(BaseType::Integer), next: k },
    ));
    assert(infer_spec(env0, Expr::Bool(true), k) == Ok::<InferOk, TypeError>(
        InferOk { env: env0, ty: Ty::Base(BaseType::Bool), next: k },
    ));
    assert(infer_spec(
        env0,
        Expr::Plus(Box::new(Expr::Integer(3)), Box::new(Expr::Bool(true))),
        k,
    ) == Ok::<InferOk, TypeError>(
        InferOk { env: env1, ty: Ty::Base(BaseType::Integer), next: k },
    ));
    assert(unify_spec(one, Seq::empty()) == Err::<Seq<(Ty, Ty)>, TypeError>(
        TypeError::UnificationImpossible,
    ));
}

} // verus!
